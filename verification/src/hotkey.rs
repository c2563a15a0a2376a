//! The system-wide summon shortcut, read from a spec like `Alt+Space`,
//! `Cmd+Shift+T` or `Ctrl+1`.
//!
//! The spec comes from a hand-editable settings file, so anything it cannot
//! understand yields `None` rather than a panic. Registering the shortcut
//! with the operating system happens in the app.

use vstd::prelude::*;

use crate::text::{chars_of, is_space, same_chars, trim, trim_end, trim_start, trimmed};

verus! {

/// Modifier keys held with the shortcut.
#[derive(Debug, Clone, Copy, PartialEq, Eq, Structural)]
pub struct Modifiers {
    pub alt: bool,
    pub control: bool,
    pub shift: bool,
    /// Command on macOS, the Windows/Super key elsewhere.
    pub logo: bool,
}

/// The key pressed with the modifiers.
#[derive(Debug, Clone, Copy, PartialEq, Eq, Structural)]
pub enum Key {
    Space,
    Enter,
    Tab,
    Escape,
    Backquote,
    /// A letter, counted from `A` = 0 to `Z` = 25.
    Letter(u8),
    /// A digit, 0 to 9.
    Digit(u8),
}

/// A parsed shortcut.
#[derive(Debug, Clone, Copy, PartialEq, Eq, Structural)]
pub struct HotkeySpec {
    pub mods: Modifiers,
    pub key: Key,
}

pub open spec fn no_modifiers() -> Modifiers {
    Modifiers { alt: false, control: false, shift: false, logo: false }
}

/// ASCII letters folded to lower case; everything else unchanged.
pub open spec fn ascii_lower(c: char) -> char {
    if 'A' <= c && c <= 'Z' {
        ((c as u32) + 32) as char
    } else {
        c
    }
}

pub open spec fn lowered(s: Seq<char>) -> Seq<char> {
    s.map_values(|c: char| ascii_lower(c))
}

/// The key a lower-case key name means.
pub open spec fn key_named(n: Seq<char>) -> Option<Key> {
    if n == "space"@ {
        Some(Key::Space)
    } else if n == "enter"@ || n == "return"@ {
        Some(Key::Enter)
    } else if n == "tab"@ {
        Some(Key::Tab)
    } else if n == "escape"@ || n == "esc"@ {
        Some(Key::Escape)
    } else if n == "backquote"@ || n == "`"@ {
        Some(Key::Backquote)
    } else if n.len() == 1 && 'a' <= n[0] && n[0] <= 'z' {
        Some(Key::Letter(((n[0] as u32) - 97) as u8))
    } else if n.len() == 1 && '0' <= n[0] && n[0] <= '9' {
        Some(Key::Digit(((n[0] as u32) - 48) as u8))
    } else {
        None
    }
}

/// One `+`-separated part applied: a modifier name sets its modifier, and
/// anything else is read as the key (replacing any key read before).
pub open spec fn apply_part(st: (Modifiers, Option<Key>), part: Seq<char>) -> (
    Modifiers,
    Option<Key>,
) {
    let t = trim(part);
    let n = lowered(t);
    let (m, k) = st;
    if t.len() == 0 {
        st
    } else if n == "alt"@ || n == "opt"@ || n == "option"@ {
        (Modifiers { alt: true, ..m }, k)
    } else if n == "ctrl"@ || n == "control"@ {
        (Modifiers { control: true, ..m }, k)
    } else if n == "shift"@ {
        (Modifiers { shift: true, ..m }, k)
    } else if n == "cmd"@ || n == "command"@ || n == "super"@ || n == "meta"@ || n == "win"@ {
        (Modifiers { logo: true, ..m }, k)
    } else {
        (m, key_named(n))
    }
}

/// Reading the spec one character at a time: the state after every finished
/// part, and the part being read.
pub open spec fn parts_fold(s: Seq<char>) -> ((Modifiers, Option<Key>), Seq<char>)
    decreases s.len(),
{
    if s.len() == 0 {
        ((no_modifiers(), None), Seq::empty())
    } else {
        let (st, cur) = parts_fold(s.drop_last());
        if s.last() == '+' {
            (apply_part(st, cur), Seq::empty())
        } else {
            (st, cur.push(s.last()))
        }
    }
}

/// What a shortcut spec means, if anything.
pub open spec fn parse_spec(s: Seq<char>) -> Option<HotkeySpec> {
    let (st, cur) = parts_fold(s);
    let (m, k) = apply_part(st, cur);
    match k {
        Some(key) => Some(HotkeySpec { mods: m, key }),
        None => None,
    }
}

fn lower_all(v: &[char]) -> (r: Vec<char>)
    ensures
        r@ == lowered(v@),
{
    let mut r: Vec<char> = Vec::new();
    let mut i: usize = 0;
    while i < v.len()
        invariant
            i <= v.len(),
            r@ == lowered(v@.take(i as int)),
        decreases v.len() - i,
    {
        let c = v[i];
        let l = if 'A' <= c && c <= 'Z' {
            char_plus_32(c)
        } else {
            c
        };
        r.push(l);
        i += 1;
        assert(r@ =~= lowered(v@.take(i as int)));
    }
    assert(v@.take(v.len() as int) =~= v@);
    r
}

fn char_plus_32(c: char) -> (r: char)
    requires
        'A' <= c && c <= 'Z',
    ensures
        r == ((c as u32) + 32) as char,
{
    let b = (c as u8) + 32;
    b as char
}

fn is_name(n: &[char], lit: &str) -> (r: bool)
    ensures
        r == (n@ == lit@),
{
    let l = chars_of(lit);
    same_chars(n, l.as_slice())
}

fn key_of(n: &[char]) -> (r: Option<Key>)
    ensures
        r == key_named(n@),
{
    if is_name(n, "space") {
        Some(Key::Space)
    } else if is_name(n, "enter") || is_name(n, "return") {
        Some(Key::Enter)
    } else if is_name(n, "tab") {
        Some(Key::Tab)
    } else if is_name(n, "escape") || is_name(n, "esc") {
        Some(Key::Escape)
    } else if is_name(n, "backquote") || is_name(n, "`") {
        Some(Key::Backquote)
    } else if n.len() == 1 && 'a' <= n[0] && n[0] <= 'z' {
        Some(Key::Letter(((n[0] as u32) - 97) as u8))
    } else if n.len() == 1 && '0' <= n[0] && n[0] <= '9' {
        Some(Key::Digit(((n[0] as u32) - 48) as u8))
    } else {
        None
    }
}

fn apply(m: &mut Modifiers, k: &mut Option<Key>, part: &[char])
    ensures
        (*final(m), *final(k)) == apply_part((*old(m), *old(k)), part@),
{
    let t = trimmed(part);
    if t.len() == 0 {
        return;
    }
    let n = lower_all(t.as_slice());
    let n = n.as_slice();
    if is_name(n, "alt") || is_name(n, "opt") || is_name(n, "option") {
        m.alt = true;
    } else if is_name(n, "ctrl") || is_name(n, "control") {
        m.control = true;
    } else if is_name(n, "shift") {
        m.shift = true;
    } else if is_name(n, "cmd") || is_name(n, "command") || is_name(n, "super") || is_name(
        n,
        "meta",
    ) || is_name(n, "win") {
        m.logo = true;
    } else {
        *k = key_of(n);
    }
}

/// Parses a shortcut spec such as `Alt+Space`. Modifier names are
/// case-insensitive and have aliases (`opt`, `cmd`, `meta`, `win`, ...);
/// a bare key needs no modifier.
pub fn parse(spec: &str) -> (r: Option<HotkeySpec>)
    ensures
        r == parse_spec(spec@),
{
    let v = chars_of(spec);
    let mut m = Modifiers { alt: false, control: false, shift: false, logo: false };
    let mut k: Option<Key> = None;
    let mut cur: Vec<char> = Vec::new();
    let mut i: usize = 0;
    while i < v.len()
        invariant
            i <= v.len(),
            ((m, k), cur@) == parts_fold(v@.take(i as int)),
        decreases v.len() - i,
    {
        proof {
            assert(v@.take(i + 1).drop_last() =~= v@.take(i as int));
        }
        if v[i] == '+' {
            apply(&mut m, &mut k, cur.as_slice());
            cur = Vec::new();
        } else {
            cur.push(v[i]);
        }
        i += 1;
    }
    proof {
        assert(v@.take(v.len() as int) =~= v@);
    }
    apply(&mut m, &mut k, cur.as_slice());
    match k {
        Some(key) => Some(HotkeySpec { mods: m, key }),
        None => None,
    }
}

} // verus!

verus! {

// ------------------------------------------------------------ case

proof fn lemma_lower_char(c: char)
    ensures
        is_space(ascii_lower(c)) == is_space(c),
        ascii_lower(ascii_lower(c)) == ascii_lower(c),
        (ascii_lower(c) == '+') == (c == '+'),
{
    if 'A' <= c && c <= 'Z' {
        let u = (c as u32) + 32;
        assert(97 <= u <= 122);
        assert((u as char) as u32 == u);
    }
}

proof fn lemma_lowered_trim_start(s: Seq<char>)
    ensures
        trim_start(lowered(s)) == lowered(trim_start(s)),
    decreases s.len(),
{
    if s.len() > 0 {
        lemma_lower_char(s[0]);
        assert(lowered(s)[0] == ascii_lower(s[0]));
        if is_space(s[0]) {
            assert(lowered(s).drop_first() =~= lowered(s.drop_first()));
            lemma_lowered_trim_start(s.drop_first());
        }
    }
}

proof fn lemma_lowered_trim_end(s: Seq<char>)
    ensures
        trim_end(lowered(s)) == lowered(trim_end(s)),
    decreases s.len(),
{
    if s.len() > 0 {
        lemma_lower_char(s.last());
        assert(lowered(s).last() == ascii_lower(s.last()));
        if is_space(s.last()) {
            assert(lowered(s).drop_last() =~= lowered(s.drop_last()));
            lemma_lowered_trim_end(s.drop_last());
        }
    }
}

proof fn lemma_lowered_twice(s: Seq<char>)
    ensures
        lowered(lowered(s)) == lowered(s),
{
    assert forall|i: int| 0 <= i < s.len() implies lowered(lowered(s))[i] == lowered(s)[i] by {
        lemma_lower_char(s[i]);
    }
    assert(lowered(lowered(s)) =~= lowered(s));
}

proof fn lemma_apply_part_lowered(st: (Modifiers, Option<Key>), part: Seq<char>)
    ensures
        apply_part(st, lowered(part)) == apply_part(st, part),
{
    lemma_lowered_trim_start(part);
    lemma_lowered_trim_end(trim_start(part));
    lemma_lowered_twice(trim(part));
}

proof fn lemma_fold_lowered(s: Seq<char>)
    ensures
        parts_fold(lowered(s)).0 == parts_fold(s).0,
        parts_fold(lowered(s)).1 == lowered(parts_fold(s).1),
    decreases s.len(),
{
    if s.len() == 0 {
        assert(lowered(s) =~= Seq::<char>::empty());
        assert(lowered(Seq::<char>::empty()) =~= Seq::<char>::empty());
    } else {
        let l = lowered(s);
        assert(l.drop_last() =~= lowered(s.drop_last()));
        assert(l.last() == ascii_lower(s.last()));
        lemma_fold_lowered(s.drop_last());
        lemma_lower_char(s.last());
        let (st, cur) = parts_fold(s.drop_last());
        if s.last() == '+' {
            lemma_apply_part_lowered(st, cur);
            assert(lowered(Seq::<char>::empty()) =~= Seq::<char>::empty());
        } else {
            assert(lowered(cur).push(ascii_lower(s.last())) =~= lowered(cur.push(s.last())));
        }
    }
}

/// Shortcut specs ignore case: modifier names and key names mean the same
/// spelled in any mix of upper and lower case.
pub proof fn law_specs_ignore_case(s: Seq<char>)
    ensures
        parse_spec(lowered(s)) == parse_spec(s),
{
    lemma_fold_lowered(s);
    let (st, cur) = parts_fold(s);
    lemma_apply_part_lowered(st, cur);
}

proof fn lemma_fold_no_plus(p: Seq<char>, y: Seq<char>)
    requires
        forall|i: int| 0 <= i < y.len() ==> y[i] != '+',
    ensures
        parts_fold(p + y) == (parts_fold(p).0, parts_fold(p).1 + y),
    decreases y.len(),
{
    if y.len() == 0 {
        assert(p + y =~= p);
        assert(parts_fold(p).1 + y =~= parts_fold(p).1);
    } else {
        let d = y.drop_last();
        lemma_fold_no_plus(p, d);
        assert((p + y).drop_last() =~= p + d);
        assert((p + y).last() == y[y.len() - 1]);
        assert(parts_fold(p).1 + d.push(y.last()) =~= parts_fold(p).1 + y);
        assert((parts_fold(p).1 + d).push(y.last()) =~= parts_fold(p).1 + y);
    }
}

/// A lower-case name that is a key name is no modifier name.
proof fn lemma_key_not_modifier(n: Seq<char>)
    requires
        key_named(n) is Some,
    ensures
        n.len() > 0,
        n != "alt"@,
        n != "opt"@,
        n != "option"@,
        n != "ctrl"@,
        n != "control"@,
        n != "shift"@,
        n != "cmd"@,
        n != "command"@,
        n != "super"@,
        n != "meta"@,
        n != "win"@,
{
    reveal_strlit("alt");
    reveal_strlit("opt");
    reveal_strlit("option");
    reveal_strlit("ctrl");
    reveal_strlit("control");
    reveal_strlit("shift");
    reveal_strlit("cmd");
    reveal_strlit("command");
    reveal_strlit("super");
    reveal_strlit("meta");
    reveal_strlit("win");
    reveal_strlit("space");
    reveal_strlit("enter");
    reveal_strlit("return");
    reveal_strlit("tab");
    reveal_strlit("escape");
    reveal_strlit("esc");
    reveal_strlit("backquote");
    reveal_strlit("`");
    if n.len() == 1 {
    } else {
        assert(n == "space"@ || n == "enter"@ || n == "return"@ || n == "tab"@ || n == "escape"@
            || n == "esc"@ || n == "backquote"@);
        assert("space"@[1] == 'p' && "super"@[1] == 'u' && "shift"@[1] == 'h');
        assert("enter"@[0] == 'e' && "escape"@[0] == 'e' && "esc"@[0] == 'e');
        assert("return"@[0] == 'r' && "option"@[0] == 'o');
        assert("tab"@[0] == 't' && "backquote"@.len() == 9);
    }
}

/// A modifier name, already trimmed and in lower case, read as a part.
proof fn lemma_modifier_part(a: Seq<char>)
    requires
        a.len() > 0,
        forall|i: int| 0 <= i < a.len() ==> 'a' <= #[trigger] a[i] <= 'z',
    ensures
        trim(a) == a,
        lowered(a) == a,
        forall|i: int| 0 <= i < a.len() ==> a[i] != '+',
{
    assert(!is_space(a[0]));
    assert(!is_space(a.last()));
    assert(trim_start(a) == a);
    assert(trim_end(a) == a);
    assert(lowered(a) =~= a);
}

proof fn lemma_alias_then_key(a: Seq<char>, k: Seq<char>, m: Modifiers)
    requires
        forall|i: int| 0 <= i < a.len() ==> a[i] != '+',
        forall|i: int| 0 <= i < k.len() ==> k[i] != '+',
        apply_part((no_modifiers(), None), a) == (m, None::<Key>),
        key_named(lowered(trim(k))) is Some,
    ensures
        parse_spec(a + seq!['+'] + k) == Some(
            HotkeySpec { mods: m, key: key_named(lowered(trim(k)))->0 },
        ),
{
    lemma_fold_no_plus(Seq::empty(), a);
    assert(Seq::<char>::empty() + a =~= a);
    assert(parts_fold(Seq::<char>::empty()).1 + a =~= a);
    let ap = a + seq!['+'];
    assert(ap.drop_last() =~= a);
    assert(parts_fold(ap) == (apply_part((no_modifiers(), None), a), Seq::<char>::empty()));
    lemma_fold_no_plus(ap, k);
    assert(Seq::<char>::empty() + k =~= k);
    let n = lowered(trim(k));
    lemma_key_not_modifier(n);
    assert(trim(k).len() > 0);
}

/// Every spelling of a modifier sets exactly that modifier: a modifier name
/// joined by `+` to a key name gives that key held with that modifier alone.
pub proof fn law_modifier_spellings(k: Seq<char>)
    requires
        forall|i: int| 0 <= i < k.len() ==> k[i] != '+',
        key_named(lowered(trim(k))) is Some,
    ensures
        parse_spec("alt+"@ + k) == Some(HotkeySpec { mods: Modifiers { alt: true, control: false, shift: false, logo: false }, key: key_named(lowered(trim(k)))->0 }),
        parse_spec("opt+"@ + k) == Some(HotkeySpec { mods: Modifiers { alt: true, control: false, shift: false, logo: false }, key: key_named(lowered(trim(k)))->0 }),
        parse_spec("option+"@ + k) == Some(HotkeySpec { mods: Modifiers { alt: true, control: false, shift: false, logo: false }, key: key_named(lowered(trim(k)))->0 }),
        parse_spec("ctrl+"@ + k) == Some(HotkeySpec { mods: Modifiers { alt: false, control: true, shift: false, logo: false }, key: key_named(lowered(trim(k)))->0 }),
        parse_spec("control+"@ + k) == Some(HotkeySpec { mods: Modifiers { alt: false, control: true, shift: false, logo: false }, key: key_named(lowered(trim(k)))->0 }),
        parse_spec("shift+"@ + k) == Some(HotkeySpec { mods: Modifiers { alt: false, control: false, shift: true, logo: false }, key: key_named(lowered(trim(k)))->0 }),
        parse_spec("cmd+"@ + k) == Some(HotkeySpec { mods: Modifiers { alt: false, control: false, shift: false, logo: true }, key: key_named(lowered(trim(k)))->0 }),
        parse_spec("command+"@ + k) == Some(HotkeySpec { mods: Modifiers { alt: false, control: false, shift: false, logo: true }, key: key_named(lowered(trim(k)))->0 }),
        parse_spec("super+"@ + k) == Some(HotkeySpec { mods: Modifiers { alt: false, control: false, shift: false, logo: true }, key: key_named(lowered(trim(k)))->0 }),
        parse_spec("meta+"@ + k) == Some(HotkeySpec { mods: Modifiers { alt: false, control: false, shift: false, logo: true }, key: key_named(lowered(trim(k)))->0 }),
        parse_spec("win+"@ + k) == Some(HotkeySpec { mods: Modifiers { alt: false, control: false, shift: false, logo: true }, key: key_named(lowered(trim(k)))->0 }),
{
    reveal_strlit("alt");
    reveal_strlit("opt");
    reveal_strlit("option");
    reveal_strlit("ctrl");
    reveal_strlit("control");
    reveal_strlit("shift");
    reveal_strlit("cmd");
    reveal_strlit("command");
    reveal_strlit("super");
    reveal_strlit("meta");
    reveal_strlit("win");
    reveal_strlit("alt+");
    assert("alt+"@ =~= "alt"@ + seq!['+']);
    lemma_modifier_part("alt"@);
    lemma_alias_then_key("alt"@, k, Modifiers { alt: true, control: false, shift: false, logo: false });
    reveal_strlit("opt+");
    assert("opt+"@ =~= "opt"@ + seq!['+']);
    lemma_modifier_part("opt"@);
    lemma_alias_then_key("opt"@, k, Modifiers { alt: true, control: false, shift: false, logo: false });
    reveal_strlit("option+");
    assert("option+"@ =~= "option"@ + seq!['+']);
    lemma_modifier_part("option"@);
    lemma_alias_then_key("option"@, k, Modifiers { alt: true, control: false, shift: false, logo: false });
    reveal_strlit("ctrl+");
    assert("ctrl+"@ =~= "ctrl"@ + seq!['+']);
    lemma_modifier_part("ctrl"@);
    lemma_alias_then_key("ctrl"@, k, Modifiers { alt: false, control: true, shift: false, logo: false });
    reveal_strlit("control+");
    assert("control+"@ =~= "control"@ + seq!['+']);
    lemma_modifier_part("control"@);
    lemma_alias_then_key("control"@, k, Modifiers { alt: false, control: true, shift: false, logo: false });
    reveal_strlit("shift+");
    assert("shift+"@ =~= "shift"@ + seq!['+']);
    lemma_modifier_part("shift"@);
    lemma_alias_then_key("shift"@, k, Modifiers { alt: false, control: false, shift: true, logo: false });
    reveal_strlit("cmd+");
    assert("cmd+"@ =~= "cmd"@ + seq!['+']);
    lemma_modifier_part("cmd"@);
    lemma_alias_then_key("cmd"@, k, Modifiers { alt: false, control: false, shift: false, logo: true });
    reveal_strlit("command+");
    assert("command+"@ =~= "command"@ + seq!['+']);
    lemma_modifier_part("command"@);
    lemma_alias_then_key("command"@, k, Modifiers { alt: false, control: false, shift: false, logo: true });
    reveal_strlit("super+");
    assert("super+"@ =~= "super"@ + seq!['+']);
    lemma_modifier_part("super"@);
    lemma_alias_then_key("super"@, k, Modifiers { alt: false, control: false, shift: false, logo: true });
    reveal_strlit("meta+");
    assert("meta+"@ =~= "meta"@ + seq!['+']);
    lemma_modifier_part("meta"@);
    lemma_alias_then_key("meta"@, k, Modifiers { alt: false, control: false, shift: false, logo: true });
    reveal_strlit("win+");
    assert("win+"@ =~= "win"@ + seq!['+']);
    lemma_modifier_part("win"@);
    lemma_alias_then_key("win"@, k, Modifiers { alt: false, control: false, shift: false, logo: true });
}

} // verus!
