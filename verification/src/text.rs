//! Character-level text handling shared by the parsers and formatters.
//!
//! Everything here works on `Seq<char>` in specifications and on `Vec<char>`
//! in code: a `str` is turned into its characters once, shaped, and turned
//! back into a `String` at the end.

use vstd::prelude::*;

verus! {

/// `String::push` appends one character.
pub assume_specification[ String::push ](s: &mut String, ch: char)
    ensures
        final(s)@ == old(s)@.push(ch),
;

// ------------------------------------------------------------ whitespace

/// Unicode `White_Space`, the set `char::is_whitespace` accepts.
pub open spec fn is_space(c: char) -> bool {
    let u = c as u32;
    ||| u == 0x20
    ||| 0x09 <= u <= 0x0d
    ||| u == 0x85
    ||| u == 0xa0
    ||| u == 0x1680
    ||| 0x2000 <= u <= 0x200a
    ||| u == 0x2028
    ||| u == 0x2029
    ||| u == 0x202f
    ||| u == 0x205f
    ||| u == 0x3000
}

pub fn space(c: char) -> (r: bool)
    ensures
        r == is_space(c),
{
    let u = c as u32;
    u == 0x20 || (0x09 <= u && u <= 0x0d) || u == 0x85 || u == 0xa0 || u == 0x1680 || (0x2000
        <= u && u <= 0x200a) || u == 0x2028 || u == 0x2029 || u == 0x202f || u == 0x205f || u
        == 0x3000
}

/// True when the text holds a character that is not whitespace.
pub open spec fn has_ink(s: Seq<char>) -> bool {
    exists|i: int| 0 <= i < s.len() && !is_space(#[trigger] s[i])
}

/// Leading whitespace removed.
pub open spec fn trim_start(s: Seq<char>) -> Seq<char>
    decreases s.len(),
{
    if s.len() > 0 && is_space(s[0]) {
        trim_start(s.drop_first())
    } else {
        s
    }
}

/// Trailing whitespace removed.
pub open spec fn trim_end(s: Seq<char>) -> Seq<char>
    decreases s.len(),
{
    if s.len() > 0 && is_space(s.last()) {
        trim_end(s.drop_last())
    } else {
        s
    }
}

/// Whitespace removed from both ends, as `str::trim` does.
pub open spec fn trim(s: Seq<char>) -> Seq<char> {
    trim_end(trim_start(s))
}

// ---------------------------------------------------------------- words

/// Splitting on whitespace, one character at a time: the words finished so
/// far, and the word still being read.
pub open spec fn words_fold(s: Seq<char>) -> (Seq<Seq<char>>, Seq<char>)
    decreases s.len(),
{
    if s.len() == 0 {
        (Seq::empty(), Seq::empty())
    } else {
        let (done, cur) = words_fold(s.drop_last());
        if is_space(s.last()) {
            if cur.len() > 0 {
                (done.push(cur), Seq::empty())
            } else {
                (done, Seq::empty())
            }
        } else {
            (done, cur.push(s.last()))
        }
    }
}

/// The maximal runs of non-whitespace characters, as `str::split_whitespace`
/// yields them.
pub open spec fn words(s: Seq<char>) -> Seq<Seq<char>> {
    let (done, cur) = words_fold(s);
    if cur.len() > 0 {
        done.push(cur)
    } else {
        done
    }
}

/// The pieces laid end to end with `sep` between each pair.
pub open spec fn join(parts: Seq<Seq<char>>, sep: Seq<char>) -> Seq<char>
    decreases parts.len(),
{
    if parts.len() == 0 {
        Seq::empty()
    } else if parts.len() == 1 {
        parts[0]
    } else {
        join(parts.drop_last(), sep) + sep + parts.last()
    }
}

/// Every run of whitespace folded to one space, and none at either end.
pub open spec fn collapse(s: Seq<char>) -> Seq<char> {
    join(words(s), seq![' '])
}

/// The horizontal ellipsis that marks shortened text.
pub open spec fn ellipsis() -> char {
    '\u{2026}'
}

/// The first `n` characters, any whitespace they end in dropped, then an
/// ellipsis.
pub open spec fn shortened(s: Seq<char>, n: int) -> Seq<char> {
    trim_end(s.take(n)).push(ellipsis())
}

/// At most `max` characters kept; longer text is shortened and marked.
pub open spec fn truncated(s: Seq<char>, max: int) -> Seq<char> {
    if s.len() <= max {
        s
    } else {
        shortened(s, max)
    }
}

// ---------------------------------------------------------------- lemmas

proof fn lemma_trim_start_skip(s: Seq<char>, i: int)
    requires
        0 <= i <= s.len(),
        forall|j: int| 0 <= j < i ==> is_space(#[trigger] s[j]),
    ensures
        trim_start(s) == trim_start(s.skip(i)),
    decreases i,
{
    if i > 0 {
        lemma_trim_start_skip(s, i - 1);
        assert(s.skip(i - 1).drop_first() =~= s.skip(i));
    } else {
        assert(s.skip(0) =~= s);
    }
}

proof fn lemma_trim_end_take(s: Seq<char>, i: int)
    requires
        0 <= i <= s.len(),
        forall|j: int| i <= j < s.len() ==> is_space(#[trigger] s[j]),
    ensures
        trim_end(s) == trim_end(s.take(i)),
    decreases s.len() - i,
{
    if i < s.len() {
        lemma_trim_end_take(s, i + 1);
        assert(s.take(i + 1).drop_last() =~= s.take(i));
    } else {
        assert(s.take(i) =~= s);
    }
}

/// The characters after the leading whitespace are untouched by `trim_start`.
pub proof fn lemma_trim_start_is_suffix(s: Seq<char>)
    ensures
        trim_start(s).len() <= s.len(),
        trim_start(s) =~= s.skip(s.len() - trim_start(s).len()),
        trim_start(s).len() > 0 ==> !is_space(trim_start(s)[0]),
    decreases s.len(),
{
    if s.len() > 0 && is_space(s[0]) {
        lemma_trim_start_is_suffix(s.drop_first());
    }
}

/// `trim_end` keeps a prefix.
pub proof fn lemma_trim_end_is_prefix(s: Seq<char>)
    ensures
        trim_end(s).len() <= s.len(),
        trim_end(s) =~= s.take(trim_end(s).len() as int),
        trim_end(s).len() > 0 ==> !is_space(trim_end(s).last()),
        forall|j: int| trim_end(s).len() <= j < s.len() ==> is_space(#[trigger] s[j]),
    decreases s.len(),
{
    if s.len() > 0 && is_space(s.last()) {
        lemma_trim_end_is_prefix(s.drop_last());
        assert forall|j: int| trim_end(s).len() <= j < s.len() implies is_space(
            #[trigger] s[j],
        ) by {
            if j < s.len() - 1 {
                assert(s[j] == s.drop_last()[j]);
            }
        }
    }
}

/// Trimmed text is empty exactly when the text held nothing but whitespace.
pub proof fn lemma_trim_empty_iff(s: Seq<char>)
    ensures
        (trim(s).len() == 0) == !has_ink(s),
        trim(s).len() > 0 ==> !is_space(trim(s)[0]) && !is_space(trim(s).last()),
{
    lemma_trim_start_is_suffix(s);
    let t = trim_start(s);
    lemma_trim_end_is_prefix(t);
    lemma_trim_start_leading(s);
    if has_ink(s) {
        let i = choose|i: int| 0 <= i < s.len() && !is_space(#[trigger] s[i]);
        let k = s.len() - t.len();
        assert(i >= k);
        assert(t[i - k] == s[i]);
        if trim_end(t).len() == 0 {
            assert(is_space(t[i - k]));
        }
    }
    if trim(s).len() > 0 {
        assert(trim(s)[0] == t[0]);
    } else if has_ink(s) {
    }
    if !has_ink(s) && t.len() > 0 {
        let k = s.len() - t.len();
        assert(t[0] == s[k]);
    }
}

/// Everything `trim_start` removed was whitespace.
pub proof fn lemma_trim_start_leading(s: Seq<char>)
    ensures
        forall|j: int| 0 <= j < s.len() - trim_start(s).len() ==> is_space(#[trigger] s[j]),
    decreases s.len(),
{
    if s.len() > 0 && is_space(s[0]) {
        lemma_trim_start_leading(s.drop_first());
        assert forall|j: int| 0 <= j < s.len() - trim_start(s).len() implies is_space(
            #[trigger] s[j],
        ) by {
            if j > 0 {
                assert(s[j] == s.drop_first()[j - 1]);
            }
        }
    }
}

/// One line of single-spaced words: every whitespace character in it is a
/// plain space with a character that is not whitespace on either side.
pub open spec fn is_tidy_line(s: Seq<char>) -> bool {
    forall|i: int|
        0 <= i < s.len() && is_space(#[trigger] s[i]) ==> s[i] == ' ' && 0 < i < s.len() - 1
            && !is_space(s[i - 1]) && !is_space(s[i + 1])
}

/// A nonempty run of characters none of which is whitespace.
pub open spec fn is_word(s: Seq<char>) -> bool {
    s.len() > 0 && forall|j: int| 0 <= j < s.len() ==> !is_space(#[trigger] s[j])
}

proof fn lemma_words_fold_clean(s: Seq<char>)
    ensures
        forall|k: int|
            0 <= k < words_fold(s).0.len() ==> is_word(#[trigger] words_fold(s).0[k]),
        forall|j: int|
            0 <= j < words_fold(s).1.len() ==> !is_space(#[trigger] words_fold(s).1[j]),
        has_ink(s) ==> words_fold(s).0.len() > 0 || words_fold(s).1.len() > 0,
    decreases s.len(),
{
    if s.len() > 0 {
        let p = s.drop_last();
        lemma_words_fold_clean(p);
        let (done, cur) = words_fold(p);
        let c = s.last();
        if is_space(c) {
            if has_ink(s) {
                let i = choose|i: int| 0 <= i < s.len() && !is_space(#[trigger] s[i]);
                assert(p[i] == s[i]);
            }
            if cur.len() > 0 {
                assert(is_word(cur));
                let d = done.push(cur);
                assert forall|k: int| 0 <= k < d.len() implies is_word(#[trigger] d[k]) by {
                    if k < done.len() {
                        assert(d[k] == done[k]);
                    }
                }
            }
        } else {
            let n = cur.push(c);
            assert forall|j: int| 0 <= j < n.len() implies !is_space(#[trigger] n[j]) by {
                if j < cur.len() {
                    assert(n[j] == cur[j]);
                }
            }
        }
    }
}

/// Every word is a nonempty run free of whitespace, and text with a
/// character that is not whitespace has at least one word.
pub proof fn lemma_words_clean(s: Seq<char>)
    ensures
        forall|k: int| 0 <= k < words(s).len() ==> is_word(#[trigger] words(s)[k]),
        has_ink(s) ==> words(s).len() > 0,
{
    lemma_words_fold_clean(s);
    let (done, cur) = words_fold(s);
    if cur.len() > 0 {
        assert(is_word(cur));
        let w = done.push(cur);
        assert forall|k: int| 0 <= k < w.len() implies is_word(#[trigger] w[k]) by {
            if k < done.len() {
                assert(w[k] == done[k]);
            }
        }
    }
}

/// A tidy line neither starts nor ends with whitespace.
pub proof fn lemma_tidy_edges(s: Seq<char>)
    requires
        is_tidy_line(s),
        s.len() > 0,
    ensures
        !is_space(s[0]),
        !is_space(s.last()),
{
    if is_space(s[0]) {
        assert(0 < 0int);
    }
    if is_space(s[s.len() - 1]) {
        assert(s.len() - 1 < s.len() - 1);
    }
}

/// Text that neither starts nor ends with whitespace is its own trim.
pub proof fn lemma_trim_keeps(s: Seq<char>)
    requires
        s.len() > 0 ==> !is_space(s[0]) && !is_space(s.last()),
    ensures
        trim(s) == s,
{
}

/// Words laid end to end with single spaces make a tidy line.
proof fn lemma_join_words_tidy(parts: Seq<Seq<char>>)
    requires
        forall|k: int| 0 <= k < parts.len() ==> is_word(#[trigger] parts[k]),
    ensures
        is_tidy_line(join(parts, seq![' '])),
        parts.len() > 0 ==> join(parts, seq![' ']).len() > 0,
    decreases parts.len(),
{
    if parts.len() >= 2 {
        let dl = parts.drop_last();
        assert forall|k: int| 0 <= k < dl.len() implies is_word(#[trigger] dl[k]) by {
            assert(dl[k] == parts[k]);
        }
        lemma_join_words_tidy(dl);
        let a = join(dl, seq![' ']);
        let w = parts.last();
        assert(is_word(parts[parts.len() - 1]));
        let j = join(parts, seq![' ']);
        assert(j == a + seq![' '] + w);
        lemma_tidy_edges(a);
        assert forall|i: int| 0 <= i < j.len() && is_space(#[trigger] j[i]) implies j[i] == ' '
            && 0 < i < j.len() - 1 && !is_space(j[i - 1]) && !is_space(j[i + 1]) by {
            if i < a.len() {
                assert(j[i] == a[i]);
                assert(j[i - 1] == a[i - 1]);
                assert(j[i + 1] == a[i + 1]);
            } else if i == a.len() {
                assert(j[i - 1] == a[a.len() - 1]);
                assert(j[i + 1] == w[0]);
            } else {
                assert(j[i] == w[i - a.len() - 1]);
            }
        }
    } else if parts.len() == 1 {
        assert(is_word(parts[0]));
    }
}

/// Collapsed text is a tidy line, and it is empty only when the text held
/// nothing but whitespace.
pub proof fn lemma_collapse_tidy(s: Seq<char>)
    ensures
        is_tidy_line(collapse(s)),
        has_ink(s) ==> collapse(s).len() > 0,
{
    lemma_words_clean(s);
    lemma_join_words_tidy(words(s));
}

/// A tidy line cut anywhere, with the whitespace it then ends in dropped,
/// is still tidy.
pub proof fn lemma_tidy_cut(s: Seq<char>, n: int)
    requires
        is_tidy_line(s),
        0 <= n <= s.len(),
    ensures
        is_tidy_line(trim_end(s.take(n))),
{
    let t = s.take(n);
    lemma_trim_end_is_prefix(t);
    let p = trim_end(t);
    assert forall|i: int| 0 <= i < p.len() && is_space(#[trigger] p[i]) implies p[i] == ' ' && 0
        < i < p.len() - 1 && !is_space(p[i - 1]) && !is_space(p[i + 1]) by {
        assert(p[i] == s[i]);
        assert(p[p.len() - 1] == p.last());
        if i > 0 {
            assert(p[i - 1] == s[i - 1]);
        }
        if i + 1 < p.len() {
            assert(p[i + 1] == s[i + 1]);
        }
    }
}

/// A tidy line with one more character that is not whitespace is tidy.
pub proof fn lemma_tidy_push(s: Seq<char>, c: char)
    requires
        is_tidy_line(s),
        !is_space(c),
    ensures
        is_tidy_line(s.push(c)),
{
    let t = s.push(c);
    assert forall|i: int| 0 <= i < t.len() && is_space(#[trigger] t[i]) implies t[i] == ' ' && 0
        < i < t.len() - 1 && !is_space(t[i - 1]) && !is_space(t[i + 1]) by {
        if i < s.len() {
            assert(t[i] == s[i]);
            assert(t[i - 1] == s[i - 1]);
            assert(t[i + 1] == s[i + 1]);
        }
    }
}

// ---------------------------------------------------------------- code

/// The characters of `s`, in order.
pub fn chars_of(s: &str) -> (v: Vec<char>)
    ensures
        v@ == s@,
{
    broadcast use vstd::string::group_string_axioms;

    let mut v: Vec<char> = Vec::new();
    for c in it: s.chars()
        invariant
            it.seq() == s@,
            v@ == it.seq().take(it.index() as int),
    {
        v.push(c);
    }
    v
}

/// A `String` holding exactly these characters.
pub fn string_of(v: &[char]) -> (s: String)
    ensures
        s@ == v@,
{
    let mut s = String::new();
    let mut i: usize = 0;
    while i < v.len()
        invariant
            i <= v.len(),
            s@ == v@.take(i as int),
        decreases v.len() - i,
    {
        s.push(v[i]);
        i += 1;
        assert(s@ == v@.take(i as int));
    }
    assert(v@.take(v.len() as int) =~= v@);
    s
}

/// Appends every character of `src` to `dst`.
pub fn extend(dst: &mut Vec<char>, src: &[char])
    ensures
        final(dst)@ == old(dst)@ + src@,
{
    let mut i: usize = 0;
    while i < src.len()
        invariant
            i <= src.len(),
            dst@ == old(dst)@ + src@.take(i as int),
        decreases src.len() - i,
    {
        dst.push(src[i]);
        i += 1;
        assert(dst@ =~= old(dst)@ + src@.take(i as int));
    }
    assert(src@.take(src.len() as int) =~= src@);
}

/// Appends every character of a string.
pub fn extend_str(dst: &mut Vec<char>, src: &str)
    ensures
        final(dst)@ == old(dst)@ + src@,
{
    let cs = chars_of(src);
    extend(dst, cs.as_slice());
}

/// The characters at positions `from..to`.
pub fn slice_of(v: &[char], from: usize, to: usize) -> (r: Vec<char>)
    requires
        from <= to <= v.len(),
    ensures
        r@ == v@.subrange(from as int, to as int),
{
    let mut r: Vec<char> = Vec::new();
    let mut i = from;
    while i < to
        invariant
            from <= i <= to <= v.len(),
            r@ == v@.subrange(from as int, i as int),
        decreases to - i,
    {
        r.push(v[i]);
        i += 1;
        assert(r@ =~= v@.subrange(from as int, i as int));
    }
    r
}

/// True when the two character runs are the same.
pub fn same_chars(a: &[char], b: &[char]) -> (r: bool)
    ensures
        r == (a@ == b@),
{
    if a.len() != b.len() {
        return false;
    }
    let mut i: usize = 0;
    while i < a.len()
        invariant
            i <= a.len(),
            a.len() == b.len(),
            forall|j: int| 0 <= j < i ==> a@[j] == b@[j],
        decreases a.len() - i,
    {
        if a[i] != b[i] {
            return false;
        }
        i += 1;
    }
    assert(a@ =~= b@);
    true
}

/// True when the two strings hold the same characters.
pub fn same_str(a: &str, b: &str) -> (r: bool)
    ensures
        r == (a@ == b@),
{
    let x = chars_of(a);
    let y = chars_of(b);
    same_chars(x.as_slice(), y.as_slice())
}

/// Where the text starts and ends once surrounding whitespace is dropped.
pub fn trim_bounds(v: &[char]) -> (r: (usize, usize))
    ensures
        r.0 <= r.1 <= v.len(),
        v@.subrange(r.0 as int, r.1 as int) == trim(v@),
        v@.skip(r.0 as int) == trim_start(v@),
{
    let mut a: usize = 0;
    while a < v.len() && space(v[a])
        invariant
            a <= v.len(),
            forall|j: int| 0 <= j < a ==> is_space(#[trigger] v@[j]),
        decreases v.len() - a,
    {
        a += 1;
    }
    proof {
        lemma_trim_start_skip(v@, a as int);
        if a < v.len() {
            assert(v@.skip(a as int)[0] == v@[a as int]);
        } else {
            assert(v@.skip(a as int) =~= Seq::<char>::empty());
        }
    }
    let ghost t = v@.skip(a as int);
    assert(trim_start(v@) == t);
    let mut b: usize = v.len();
    while b > a && space(v[b - 1])
        invariant
            a <= b <= v.len(),
            t == v@.skip(a as int),
            forall|j: int| b <= j < v.len() ==> is_space(#[trigger] v@[j]),
        decreases b,
    {
        b -= 1;
    }
    proof {
        let k = (b - a) as int;
        assert forall|j: int| k <= j < t.len() implies is_space(#[trigger] t[j]) by {
            assert(t[j] == v@[j + a]);
        }
        lemma_trim_end_take(t, k);
        assert(t.take(k) =~= v@.subrange(a as int, b as int));
        if k > 0 {
            assert(t.take(k).last() == v@[b - 1]);
        } else {
            assert(t.take(k) =~= Seq::<char>::empty());
        }
    }
    (a, b)
}

/// `trim` on a character vector.
pub fn trimmed(v: &[char]) -> (r: Vec<char>)
    ensures
        r@ == trim(v@),
{
    let (a, b) = trim_bounds(v);
    slice_of(v, a, b)
}

/// How many characters remain once trailing whitespace is dropped.
pub fn trim_end_len(v: &[char]) -> (n: usize)
    ensures
        n <= v.len(),
        v@.take(n as int) == trim_end(v@),
{
    let mut b: usize = v.len();
    while b > 0 && space(v[b - 1])
        invariant
            b <= v.len(),
            forall|j: int| b <= j < v.len() ==> is_space(#[trigger] v@[j]),
        decreases b,
    {
        b -= 1;
    }
    proof {
        lemma_trim_end_take(v@, b as int);
        if b > 0 {
            assert(v@.take(b as int).last() == v@[b - 1]);
        } else {
            assert(v@.take(0) =~= Seq::<char>::empty());
        }
    }
    b
}

/// True when some character is not whitespace.
pub fn any_ink(v: &[char]) -> (r: bool)
    ensures
        r == has_ink(v@),
{
    let mut i: usize = 0;
    while i < v.len()
        invariant
            i <= v.len(),
            forall|j: int| 0 <= j < i ==> is_space(#[trigger] v@[j]),
        decreases v.len() - i,
    {
        if !space(v[i]) {
            return true;
        }
        i += 1;
    }
    false
}

/// The words of `v`, split on whitespace.
pub fn split_words(v: &[char]) -> (r: Vec<Vec<char>>)
    ensures
        r@.len() == words(v@).len(),
        forall|i: int| 0 <= i < r@.len() ==> (#[trigger] r@[i])@ == words(v@)[i],
{
    let mut done: Vec<Vec<char>> = Vec::new();
    let mut cur: Vec<char> = Vec::new();
    let mut i: usize = 0;
    while i < v.len()
        invariant
            i <= v.len(),
            done@.len() == words_fold(v@.take(i as int)).0.len(),
            forall|k: int|
                0 <= k < done@.len() ==> (#[trigger] done@[k])@ == words_fold(
                    v@.take(i as int),
                ).0[k],
            cur@ == words_fold(v@.take(i as int)).1,
        decreases v.len() - i,
    {
        let c = v[i];
        proof {
            assert(v@.take(i + 1).drop_last() =~= v@.take(i as int));
            assert(v@.take(i + 1).last() == c);
        }
        if space(c) {
            if cur.len() > 0 {
                let w = cur;
                done.push(w);
                cur = Vec::new();
            }
        } else {
            cur.push(c);
        }
        i += 1;
    }
    assert(v@.take(v.len() as int) =~= v@);
    if cur.len() > 0 {
        done.push(cur);
    }
    done
}

/// The pieces joined with `sep` between them.
pub fn join_with(parts: &Vec<Vec<char>>, sep: &[char]) -> (r: Vec<char>)
    ensures
        forall|ps: Seq<Seq<char>>|
            ps.len() == parts@.len() && (forall|i: int|
                0 <= i < ps.len() ==> ps[i] == (#[trigger] parts@[i])@) ==> r@ == join(ps, sep@),
{
    let ghost ps = Seq::new(parts@.len(), |i: int| parts@[i]@);
    let mut r: Vec<char> = Vec::new();
    let mut k: usize = 0;
    while k < parts.len()
        invariant
            k <= parts.len(),
            ps.len() == parts@.len(),
            forall|i: int| 0 <= i < ps.len() ==> ps[i] == (#[trigger] parts@[i])@,
            r@ == join(ps.take(k as int), sep@),
        decreases parts.len() - k,
    {
        proof {
            assert(ps.take(k + 1).drop_last() =~= ps.take(k as int));
        }
        if k > 0 {
            extend(&mut r, sep);
        } else {
            assert(join(ps.take(0), sep@) =~= Seq::<char>::empty());
        }
        extend(&mut r, parts[k].as_slice());
        k += 1;
        proof {
            if k == 1 {
                assert(r@ =~= ps.take(1)[0]);
            }
        }
    }
    proof {
        assert(ps.take(parts.len() as int) =~= ps);
        assert forall|qs: Seq<Seq<char>>|
            qs.len() == parts@.len() && (forall|i: int|
                0 <= i < qs.len() ==> qs[i] == (#[trigger] parts@[i])@) implies r@ == join(
            qs,
            sep@,
        ) by {
            assert(qs =~= ps);
        }
    }
    r
}

/// Every run of whitespace folded to a single space, none at either end.
pub fn collapsed(v: &[char]) -> (r: Vec<char>)
    ensures
        r@ == collapse(v@),
{
    let ws = split_words(v);
    let sep = vec![' '];
    let r = join_with(&ws, sep.as_slice());
    proof {
        assert(sep@ =~= seq![' ']);
    }
    r
}

/// `max` characters kept, trailing whitespace dropped, an ellipsis added.
pub fn shorten(v: &[char], max: usize) -> (r: Vec<char>)
    requires
        max <= v.len(),
    ensures
        r@ == shortened(v@, max as int),
{
    let head = slice_of(v, 0, max);
    let n = trim_end_len(head.as_slice());
    let mut r = slice_of(head.as_slice(), 0, n);
    r.push('\u{2026}');
    proof {
        assert(v@.subrange(0, max as int) =~= v@.take(max as int));
        assert(head@.subrange(0, n as int) =~= head@.take(n as int));
    }
    r
}

/// Text kept whole up to `max` characters, shortened past that.
pub fn truncate_chars(v: &[char], max: usize) -> (r: Vec<char>)
    ensures
        r@ == truncated(v@, max as int),
{
    if v.len() <= max {
        slice_of(v, 0, v.len())
    } else {
        shorten(v, max)
    }
}

// ------------------------------------------------------------ decimal

pub open spec fn digit_char(d: nat) -> char {
    ((d + 48) as u32) as char
}

/// The decimal spelling of `n`, with no sign and no leading zeros.
pub open spec fn decimal(n: nat) -> Seq<char>
    decreases n,
{
    if n < 10 {
        seq![digit_char(n)]
    } else {
        decimal(n / 10).push(digit_char(n % 10))
    }
}

/// The decimal spelling of a `u64`.
pub fn decimal_of(n: u64) -> (r: Vec<char>)
    ensures
        r@ == decimal(n as nat),
    decreases n,
{
    let d = (n % 10) as u32;
    let c = char_of_digit(d);
    if n < 10 {
        vec![c]
    } else {
        let mut r = decimal_of(n / 10);
        r.push(c);
        r
    }
}

fn char_of_digit(d: u32) -> (c: char)
    requires
        d < 10,
    ensures
        c == digit_char(d as nat),
{
    match d {
        0 => '0',
        1 => '1',
        2 => '2',
        3 => '3',
        4 => '4',
        5 => '5',
        6 => '6',
        7 => '7',
        8 => '8',
        _ => '9',
    }
}

/// The value of a decimal digit character, if it is one.
pub open spec fn digit_value(c: char) -> Option<nat> {
    if 48 <= c as u32 <= 57 {
        Some((c as u32 - 48) as nat)
    } else {
        None
    }
}

/// All characters are ASCII digits.
pub open spec fn all_digits(s: Seq<char>) -> bool {
    forall|i: int| 0 <= i < s.len() ==> (#[trigger] digit_value(s[i])) is Some
}

/// The number a run of decimal digits spells.
pub open spec fn digits_value(s: Seq<char>) -> nat
    decreases s.len(),
{
    if s.len() == 0 {
        0
    } else {
        digits_value(s.drop_last()) * 10 + digit_value(s.last()).unwrap_or(0)
    }
}

/// What `str::parse::<u64>` accepts: an optional `+`, then one or more ASCII
/// digits whose value fits in 64 bits.
pub open spec fn parse_u64_spec(s: Seq<char>) -> Option<u64> {
    let d = if s.len() > 0 && s[0] == '+' {
        s.drop_first()
    } else {
        s
    };
    if d.len() > 0 && all_digits(d) && digits_value(d) <= u64::MAX {
        Some(digits_value(d) as u64)
    } else {
        None
    }
}

/// Parses an unsigned 64-bit decimal number.
pub fn parse_u64(s: &str) -> (r: Option<u64>)
    ensures
        r == parse_u64_spec(s@),
{
    let v = chars_of(s);
    let start: usize = if v.len() > 0 && v[0] == '+' {
        1
    } else {
        0
    };
    let ghost d = v@.skip(start as int);
    proof {
        if start == 1 {
            assert(d =~= v@.drop_first());
        } else {
            assert(d =~= v@);
        }
    }
    if start >= v.len() {
        return None;
    }
    let mut acc: u64 = 0;
    let mut i = start;
    while i < v.len()
        invariant
            start <= i <= v.len(),
            v@ == s@,
            d == v@.skip(start as int),
            d == (if s@.len() > 0 && s@[0] == '+' {
                s@.drop_first()
            } else {
                s@
            }),
            all_digits(d.take(i - start)),
            acc as nat == digits_value(d.take(i - start)),
        decreases v.len() - i,
    {
        let c = v[i];
        let u = c as u32;
        proof {
            assert(d.take(i - start + 1).drop_last() =~= d.take(i - start));
            assert(d.take(i - start + 1).last() == c);
            assert(d[i - start] == c);
        }
        if u < 48 || u > 57 {
            proof {
                assert(digit_value(d[i - start]) is None);
                assert(!all_digits(d));
            }
            return None;
        }
        let dv = (u - 48) as u64;
        if acc > (u64::MAX - dv) / 10 {
            proof {
                assert(digit_value(d[i - start]) == Some(dv as nat));
                lemma_digits_value_grows(d, (i - start) as int);
                assert(digits_value(d.take(i - start + 1)) == acc * 10 + dv);
                assert(acc * 10 + dv > u64::MAX) by (nonlinear_arith)
                    requires
                        acc > (u64::MAX - dv) / 10,
                        dv <= 9,
                ;
            }
            return None;
        }
        acc = acc * 10 + dv;
        i += 1;
        proof {
            assert forall|j: int| 0 <= j < d.take(i - start).len() implies (#[trigger] digit_value(
                d.take(i - start)[j],
            )) is Some by {
                if j < i - 1 - start {
                    assert(d.take(i - start)[j] == d.take(i - 1 - start)[j]);
                }
            }
        }
    }
    proof {
        assert(d.take(v.len() - start) =~= d);
    }
    Some(acc)
}

/// A prefix's value never exceeds what a longer run spells.
proof fn lemma_digits_value_grows(d: Seq<char>, k: int)
    requires
        0 <= k < d.len(),
        digit_value(d[k]) is Some,
    ensures
        digits_value(d.take(k + 1)) <= digits_value(d) || !all_digits(d),
        digits_value(d.take(k + 1)) == digits_value(d.take(k)) * 10 + digit_value(d[k])->0,
    decreases d.len() - k,
{
    assert(d.take(k + 1).drop_last() =~= d.take(k));
    if all_digits(d) {
        lemma_prefix_value_le(d, k + 1);
    }
}

proof fn lemma_prefix_value_le(d: Seq<char>, n: int)
    requires
        0 <= n <= d.len(),
        all_digits(d),
    ensures
        digits_value(d.take(n)) <= digits_value(d),
    decreases d.len() - n,
{
    if n < d.len() {
        lemma_prefix_value_le(d, n + 1);
        assert(d.take(n + 1).drop_last() =~= d.take(n));
    } else {
        assert(d.take(n) =~= d);
    }
}

} // verus!
