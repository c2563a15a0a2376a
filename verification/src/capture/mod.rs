//! Quick capture: double-tap a modifier anywhere to summon Flodo, bringing
//! whatever text was selected along with you.
//!
//! Everything that decides *what* a double-tap means lives here: the tap
//! detector, the reading of raw modifier flags, and the shaping of a selection
//! into a title and a description. A platform backend only reports raw
//! transitions and reads the selection.

use vstd::prelude::*;

use crate::platform::Platform;
use crate::text::{
    chars_of, collapse, collapsed, ellipsis, extend, has_ink, is_space, is_tidy_line,
    lemma_collapse_tidy, lemma_tidy_cut, lemma_tidy_edges, lemma_tidy_push, lemma_trim_empty_iff,
    lemma_trim_end_is_prefix, lemma_trim_keeps, lemma_trim_start_is_suffix, shorten, shortened,
    slice_of, string_of, trim, trim_end, trim_start, trimmed, truncate_chars, truncated,
};

pub mod unsupported;

verus! {

/// A long selection becomes a to-do, not an archive: past this many
/// characters the body is trimmed.
pub const BODY_MAX: usize = 2000;

/// Past this many characters the first line stops being a title and starts
/// being a paragraph, so it is cut short and kept whole in the body instead.
pub const TITLE_MAX: usize = 120;

/// The shortest gap allowed between the two taps, in milliseconds.
pub const WINDOW_MS_MIN: u64 = 150;

/// The longest gap allowed between the two taps, in milliseconds.
pub const WINDOW_MS_MAX: u64 = 900;

/// Held longer than this many milliseconds and it wasn't a tap.
pub const HOLD_MAX_MS: u64 = 500;

/// Nanoseconds in a millisecond: the detector reads its clock in
/// nanoseconds, the resolution of a monotonic `Duration`, so a hold a
/// fraction of a millisecond too long is still too long.
pub const NANOS_PER_MS: u64 = 1_000_000;

/// The modifier to listen for. Only one modifier is ever watched, so nothing
/// typed is inspected.
#[derive(Debug, Clone, Copy, PartialEq, Eq, Structural)]
pub enum TapKey {
    Shift,
    Control,
    Alt,
    Command,
}

/// What a tap key is called on a platform.
pub open spec fn tap_key_name(k: TapKey, p: Platform) -> Seq<char> {
    match (k, p) {
        (TapKey::Shift, _) => "Shift"@,
        (TapKey::Control, _) => "Control"@,
        (TapKey::Alt, Platform::Mac) => "Option"@,
        (TapKey::Alt, Platform::Other) => "Alt"@,
        (TapKey::Command, Platform::Mac) => "Command"@,
        (TapKey::Command, Platform::Other) => "Super"@,
    }
}

impl TapKey {
    /// Every key, in the order the settings sheet offers them.
    pub fn all() -> (r: [TapKey; 4])
        ensures
            r@ == seq![TapKey::Shift, TapKey::Control, TapKey::Alt, TapKey::Command],
    {
        [TapKey::Shift, TapKey::Control, TapKey::Alt, TapKey::Command]
    }

    /// What the key is called on this platform, for the settings sheet.
    pub fn label(self, platform: Platform) -> (r: &'static str)
        ensures
            r@ == tap_key_name(self, platform),
    {
        match self {
            TapKey::Shift => "Shift",
            TapKey::Control => "Control",
            TapKey::Alt => match platform {
                Platform::Mac => "Option",
                Platform::Other => "Alt",
            },
            TapKey::Command => match platform {
                Platform::Mac => "Command",
                Platform::Other => "Super",
            },
        }
    }
}

/// No two keys share a label on the same platform.
pub proof fn law_tap_key_labels_are_distinct(a: TapKey, b: TapKey, p: Platform)
    requires
        a != b,
    ensures
        tap_key_name(a, p) != tap_key_name(b, p),
{
    reveal_strlit("Shift");
    reveal_strlit("Control");
    reveal_strlit("Option");
    reveal_strlit("Alt");
    reveal_strlit("Command");
    reveal_strlit("Super");
    let x = tap_key_name(a, p);
    let y = tap_key_name(b, p);
    assert(x.len() >= 3 && y.len() >= 3);
    assert(x.len() != y.len() || x[1] != y[1] || x[2] != y[2]);
}

// ------------------------------------------------------------- key flags

/// The modifier bits of a macOS `CGEventFlags` word.
pub const FLAG_CAPS_LOCK: u64 = 0x0001_0000;
pub const FLAG_SHIFT: u64 = 0x0002_0000;
pub const FLAG_CONTROL: u64 = 0x0004_0000;
pub const FLAG_ALTERNATE: u64 = 0x0008_0000;
pub const FLAG_COMMAND: u64 = 0x0010_0000;
pub const FLAG_SECONDARY_FN: u64 = 0x0080_0000;

/// The bits worth comparing. The flags word also carries housekeeping bits
/// that flip on their own and would otherwise read as "some other modifier
/// moved" on every event.
pub const FLAG_MODIFIERS: u64 = 0x009f_0000;

/// The flag bit that is set while `key` is held.
pub fn mask_of(key: TapKey) -> (m: u64)
    ensures
        m == match key {
            TapKey::Shift => FLAG_SHIFT,
            TapKey::Control => FLAG_CONTROL,
            TapKey::Alt => FLAG_ALTERNATE,
            TapKey::Command => FLAG_COMMAND,
        },
{
    match key {
        TapKey::Shift => FLAG_SHIFT,
        TapKey::Control => FLAG_CONTROL,
        TapKey::Alt => FLAG_ALTERNATE,
        TapKey::Command => FLAG_COMMAND,
    }
}

/// What the keyboard just did, as far as quick capture cares.
#[derive(Debug, Clone, Copy, PartialEq, Eq, Structural)]
pub enum Signal {
    /// The watched modifier went down.
    Down,
    /// The watched modifier came up.
    Up,
    /// Anything else at all: another key, another modifier, a click.
    Other,
}

/// Reads a modifier-flags change: the watched bit going down or up, or some
/// other modifier moving. Returns the signal and the flags to remember.
pub fn flags_signal(previous: u64, flags: u64, mask: u64) -> (r: (Signal, u64))
    ensures
        r.1 == flags & FLAG_MODIFIERS,
        r.0 == (if previous & mask == 0 && (flags & FLAG_MODIFIERS) & mask != 0 {
            Signal::Down
        } else if previous & mask != 0 && (flags & FLAG_MODIFIERS) & mask == 0 {
            Signal::Up
        } else {
            Signal::Other
        }),
{
    let current = flags & FLAG_MODIFIERS;
    let was_down = previous & mask != 0;
    let is_down = current & mask != 0;
    let signal = if !was_down && is_down {
        Signal::Down
    } else if was_down && !is_down {
        Signal::Up
    } else {
        Signal::Other
    };
    (signal, current)
}

// -------------------------------------------------------------- detector

/// The detector's state: the allowed gap in milliseconds, when the current
/// press began and when the first clean tap of a would-be pair ended (both in
/// nanoseconds), and whether something else happened during this press.
pub struct DetectorState {
    pub window_ms: u64,
    pub down_at: Option<u64>,
    pub armed: Option<u64>,
    pub dirty: bool,
}

/// Time from `earlier` to `later`, or 0 if `later` is not later.
pub open spec fn elapsed(later: u64, earlier: u64) -> int {
    if later >= earlier {
        later - earlier
    } else {
        0
    }
}

/// One signal fed to the detector at time `now`: the next state, and whether
/// this was the second tap of a pair.
pub open spec fn detector_step(s: DetectorState, signal: Signal, now: u64) -> (DetectorState, bool) {
    match signal {
        Signal::Down => (
            DetectorState {
                down_at: if s.down_at is Some {
                    s.down_at
                } else {
                    Some(now)
                },
                dirty: false,
                ..s
            },
            false,
        ),
        Signal::Other => (DetectorState { dirty: true, armed: None, ..s }, false),
        Signal::Up => match s.down_at {
            None => (DetectorState { armed: None, ..s }, false),
            Some(start) => if s.dirty || elapsed(now, start) > HOLD_MAX_MS * NANOS_PER_MS {
                (DetectorState { down_at: None, armed: None, ..s }, false)
            } else {
                match s.armed {
                    Some(first) if elapsed(now, first) <= s.window_ms * NANOS_PER_MS => (
                        DetectorState { down_at: None, armed: None, ..s },
                        true,
                    ),
                    _ => (DetectorState { down_at: None, armed: Some(now), ..s }, false),
                }
            },
        },
    }
}

/// Turns a stream of [`Signal`]s into double-taps.
///
/// A tap is the watched modifier going down and coming back up quickly with
/// nothing in between. Two clean taps inside the window are a double-tap.
/// Times are nanoseconds on a monotonic clock; the window is in
/// milliseconds.
#[derive(Debug)]
pub struct Detector {
    window_ms: u64,
    down_at: Option<u64>,
    armed: Option<u64>,
    dirty: bool,
}

impl View for Detector {
    type V = DetectorState;

    closed spec fn view(&self) -> DetectorState {
        DetectorState {
            window_ms: self.window_ms,
            down_at: self.down_at,
            armed: self.armed,
            dirty: self.dirty,
        }
    }
}

impl Detector {
    /// A detector that accepts taps at most `window_ms` apart.
    pub fn new(window_ms: u64) -> (d: Detector)
        ensures
            d@ == (DetectorState { window_ms, down_at: None, armed: None, dirty: false }),
    {
        Detector { window_ms, down_at: None, armed: None, dirty: false }
    }

    /// Feeds one signal at time `now`, in nanoseconds. Returns true on the
    /// second tap of a pair.
    pub fn feed(&mut self, signal: Signal, now: u64) -> (fired: bool)
        ensures
            (final(self)@, fired) == detector_step(old(self)@, signal, now),
    {
        match signal {
            Signal::Down => {
                // A repeated down must not restart the hold clock, or holding
                // the key could pass for a tap.
                if self.down_at.is_none() {
                    self.down_at = Some(now);
                }
                self.dirty = false;
                false
            },
            Signal::Other => {
                self.dirty = true;
                self.armed = None;
                false
            },
            Signal::Up => {
                let start = match self.down_at {
                    Some(s) => s,
                    None => {
                        // An up we never saw the down for: the modifier was
                        // already held when watching started.
                        self.armed = None;
                        return false;
                    },
                };
                self.down_at = None;
                let held = if now >= start {
                    now - start
                } else {
                    0
                };
                if self.dirty || held as u128 > HOLD_MAX_MS as u128 * NANOS_PER_MS as u128 {
                    self.armed = None;
                    return false;
                }
                match self.armed {
                    Some(first) => {
                        let gap = if now >= first {
                            now - first
                        } else {
                            0
                        };
                        if gap as u128 <= self.window_ms as u128 * NANOS_PER_MS as u128 {
                            self.armed = None;
                            true
                        } else {
                            // Too late for a pair, but a perfectly good first
                            // tap: start the window again from here.
                            self.armed = Some(now);
                            false
                        }
                    },
                    None => {
                        self.armed = Some(now);
                        false
                    },
                }
            },
        }
    }
}

/// A double-tap fires only on a clean, short release that closes a pair
/// begun by an earlier clean tap inside the window, and firing consumes the
/// pair.
pub proof fn law_fire_needs_an_armed_pair(s: DetectorState, signal: Signal, now: u64)
    ensures
        detector_step(s, signal, now).1 ==> {
            &&& signal == Signal::Up
            &&& s.down_at is Some
            &&& !s.dirty
            &&& elapsed(now, s.down_at->0) <= HOLD_MAX_MS * NANOS_PER_MS
            &&& s.armed is Some
            &&& elapsed(now, s.armed->0) <= s.window_ms * NANOS_PER_MS
            &&& detector_step(s, signal, now).0.armed is None
        },
{
}

/// Any keystroke in between disarms a pending first tap.
pub proof fn law_other_disarms(s: DetectorState, now: u64)
    ensures
        detector_step(s, Signal::Other, now).0.armed is None,
        detector_step(s, Signal::Other, now).0.dirty,
        !detector_step(s, Signal::Other, now).1,
{
}

/// Only a release can fire: a press or any other key never does, and a
/// release that comes straight after any other key does not either, since
/// that key broke whatever tap or pair was in progress.
pub proof fn law_only_a_clean_release_fires(s: DetectorState, t: u64, later: u64)
    ensures
        !detector_step(s, Signal::Down, t).1,
        !detector_step(s, Signal::Other, t).1,
        !detector_step(detector_step(s, Signal::Other, t).0, Signal::Up, later).1,
{
}

/// A clean pair fires whatever came before: from any state with the key up
/// and no tap pending, however dirty, a press and release within the hold
/// limit and then another, its release within the window of the first
/// release, fires on the second release and not before.
pub proof fn law_a_clean_pair_fires(s: DetectorState, t1: u64, t2: u64, t3: u64, t4: u64)
    requires
        s.down_at is None,
        s.armed is None,
        t1 <= t2 <= t3 <= t4,
        t2 - t1 <= HOLD_MAX_MS * NANOS_PER_MS,
        t4 - t3 <= HOLD_MAX_MS * NANOS_PER_MS,
        t4 - t2 <= s.window_ms * NANOS_PER_MS,
    ensures
        !detector_step(s, Signal::Down, t1).1,
        !detector_step(detector_step(s, Signal::Down, t1).0, Signal::Up, t2).1,
        !detector_step(
            detector_step(detector_step(s, Signal::Down, t1).0, Signal::Up, t2).0,
            Signal::Down,
            t3,
        ).1,
        detector_step(
            detector_step(
                detector_step(detector_step(s, Signal::Down, t1).0, Signal::Up, t2).0,
                Signal::Down,
                t3,
            ).0,
            Signal::Up,
            t4,
        ).1,
{
}

/// Another key before a pair of clean taps is forgotten by the first press:
/// with the key up, any state followed by another key and then a clean pair
/// fires on the pair's second release.
pub proof fn law_noise_before_a_pair_is_forgotten(
    s: DetectorState,
    t0: u64,
    t1: u64,
    t2: u64,
    t3: u64,
    t4: u64,
)
    requires
        s.down_at is None,
        t1 <= t2 <= t3 <= t4,
        t2 - t1 <= HOLD_MAX_MS * NANOS_PER_MS,
        t4 - t3 <= HOLD_MAX_MS * NANOS_PER_MS,
        t4 - t2 <= s.window_ms * NANOS_PER_MS,
    ensures
        detector_step(
            detector_step(
                detector_step(
                    detector_step(detector_step(s, Signal::Other, t0).0, Signal::Down, t1).0,
                    Signal::Up,
                    t2,
                ).0,
                Signal::Down,
                t3,
            ).0,
            Signal::Up,
            t4,
        ).1,
{
    law_a_clean_pair_fires(detector_step(s, Signal::Other, t0).0, t1, t2, t3, t4);
}

// ------------------------------------------------------------- selections

/// Selected text, already shaped into a to-do.
#[derive(Debug, Clone, PartialEq, Eq)]
pub struct Captured {
    pub title: String,
    pub body: String,
}

/// Windows (`\r\n`) and classic Mac (`\r`) line endings turned into `\n`.
pub open spec fn unify_newlines(s: Seq<char>) -> Seq<char>
    decreases s.len(),
{
    if s.len() == 0 {
        Seq::empty()
    } else if s[0] == '\r' && s.len() > 1 && s[1] == '\n' {
        seq!['\n'] + unify_newlines(s.skip(2))
    } else if s[0] == '\r' {
        seq!['\n'] + unify_newlines(s.drop_first())
    } else {
        seq![s[0]] + unify_newlines(s.drop_first())
    }
}

/// Where the first line ends: the first `\n`, or the end of the text.
pub open spec fn line_end(s: Seq<char>) -> int
    decreases s.len(),
{
    if s.len() == 0 {
        0
    } else if s[0] == '\n' {
        0
    } else {
        1 + line_end(s.drop_first())
    }
}

/// The text before the first `\n`.
pub open spec fn first_line(s: Seq<char>) -> Seq<char> {
    s.take(line_end(s))
}

/// The text after the first `\n`, empty when there is only one line.
pub open spec fn after_first_line(s: Seq<char>) -> Seq<char> {
    if line_end(s) < s.len() {
        s.skip(line_end(s) + 1)
    } else {
        Seq::empty()
    }
}

/// A selection shaped into `(title, body)`, or `None` when there is nothing
/// but whitespace.
///
/// The first line, with its whitespace runs folded, is the title and the
/// remaining lines the body. A first line longer than `TITLE_MAX` characters
/// is a paragraph: the title is its shortened form, and the whole line leads
/// the body so no word of it is lost. The body is kept to `BODY_MAX`
/// characters.
pub open spec fn split_spec(raw: Seq<char>) -> Option<(Seq<char>, Seq<char>)> {
    let text = trim(unify_newlines(raw));
    if text.len() == 0 {
        None
    } else {
        let headline = collapse(first_line(text));
        let rest = trim(after_first_line(text));
        let (title, body) = if headline.len() > TITLE_MAX {
            (
                shortened(headline, TITLE_MAX as int),
                if rest.len() == 0 {
                    headline
                } else {
                    headline + seq!['\n', '\n'] + rest
                },
            )
        } else {
            (headline, rest)
        };
        Some((title, truncated(body, BODY_MAX as int)))
    }
}

/// Replaces `\r\n` and lone `\r` with `\n`.
pub fn unify_line_endings(v: &[char]) -> (r: Vec<char>)
    ensures
        r@ == unify_newlines(v@),
{
    let mut out: Vec<char> = Vec::new();
    let mut i: usize = 0;
    proof {
        assert(v@.skip(0) =~= v@);
        assert(out@ + unify_newlines(v@) =~= unify_newlines(v@));
    }
    while i < v.len()
        invariant
            i <= v.len(),
            out@ + unify_newlines(v@.skip(i as int)) == unify_newlines(v@),
        decreases v.len() - i,
    {
        let ghost rest = v@.skip(i as int);
        if v[i] == '\r' && i + 1 < v.len() && v[i + 1] == '\n' {
            proof {
                assert(rest.skip(2) =~= v@.skip(i + 2));
                assert(rest[0] == '\r' && rest[1] == '\n');
            }
            out.push('\n');
            i += 2;
        } else {
            proof {
                assert(rest.drop_first() =~= v@.skip(i + 1));
                assert(rest[0] == v@[i as int]);
                if i + 1 < v.len() {
                    assert(rest[1] == v@[i + 1]);
                }
            }
            if v[i] == '\r' {
                out.push('\n');
            } else {
                out.push(v[i]);
            }
            i += 1;
        }
        proof {
            assert(out@ + unify_newlines(v@.skip(i as int)) =~= unify_newlines(v@));
        }
    }
    proof {
        assert(v@.skip(v.len() as int) =~= Seq::<char>::empty());
        assert(out@ + Seq::<char>::empty() =~= out@);
    }
    out
}

proof fn lemma_line_end(s: Seq<char>)
    ensures
        0 <= line_end(s) <= s.len(),
        line_end(s) < s.len() ==> s[line_end(s)] == '\n',
        forall|j: int| 0 <= j < line_end(s) ==> s[j] != '\n',
    decreases s.len(),
{
    if s.len() > 0 && s[0] != '\n' {
        lemma_line_end(s.drop_first());
        assert forall|j: int| 0 <= j < line_end(s) implies s[j] != '\n' by {
            if j > 0 {
                assert(s[j] == s.drop_first()[j - 1]);
            }
        }
    }
}

/// Finds the first `\n`.
pub fn find_line_end(v: &[char]) -> (k: usize)
    ensures
        k <= v.len(),
        k as int == line_end(v@),
{
    let mut k: usize = 0;
    while k < v.len() && v[k] != '\n'
        invariant
            k <= v.len(),
            forall|j: int| 0 <= j < k ==> v@[j] != '\n',
        decreases v.len() - k,
    {
        k += 1;
    }
    proof {
        lemma_line_end_at(v@, k as int);
    }
    k
}

proof fn lemma_line_end_at(s: Seq<char>, k: int)
    requires
        0 <= k <= s.len(),
        forall|j: int| 0 <= j < k ==> s[j] != '\n',
        k == s.len() || s[k] == '\n',
    ensures
        line_end(s) == k,
    decreases k,
{
    if k > 0 {
        lemma_line_end_at(s.drop_first(), k - 1);
    }
}

/// Text kept whole up to `max` characters, shortened and marked past that.
pub fn truncate(s: &str, max: usize) -> (r: String)
    ensures
        r@ == truncated(s@, max as int),
{
    let v = chars_of(s);
    let t = truncate_chars(v.as_slice(), max);
    string_of(t.as_slice())
}

/// Splits a selection into a title and a description.
///
/// Returns `None` for a selection that is empty or only whitespace: nothing
/// was selected, so the double-tap is a plain summon.
pub fn split(raw: &str) -> (r: Option<Captured>)
    ensures
        match split_spec(raw@) {
            None => r is None,
            Some((title, body)) => r matches Some(c) && c.title@ == title && c.body@ == body,
        },
{
    let chars = chars_of(raw);
    let unified = unify_line_endings(chars.as_slice());
    let text = trimmed(unified.as_slice());
    if text.len() == 0 {
        return None;
    }
    let k = find_line_end(text.as_slice());
    let first = slice_of(text.as_slice(), 0, k);
    let rest_raw = if k < text.len() {
        slice_of(text.as_slice(), k + 1, text.len())
    } else {
        Vec::new()
    };
    proof {
        assert(first@ =~= first_line(text@));
        assert(rest_raw@ =~= after_first_line(text@));
    }
    let headline = collapsed(first.as_slice());
    let rest = trimmed(rest_raw.as_slice());
    let (title, body) = if headline.len() > TITLE_MAX {
        let short = shorten(headline.as_slice(), TITLE_MAX);
        let body = if rest.len() == 0 {
            headline
        } else {
            let mut b = headline;
            b.push('\n');
            b.push('\n');
            extend(&mut b, rest.as_slice());
            b
        };
        (short, body)
    } else {
        (headline, rest)
    };
    let body = truncate_chars(body.as_slice(), BODY_MAX);
    proof {
        let hl = collapse(first_line(text@));
        if hl.len() > TITLE_MAX && trim(after_first_line(text@)).len() > 0 {
            assert(hl + seq!['\n', '\n'] + trim(after_first_line(text@)) =~= hl.push('\n').push(
                '\n',
            ) + trim(after_first_line(text@)));
        }
    }
    Some(Captured { title: string_of(title.as_slice()), body: string_of(body.as_slice()) })
}

/// Nothing but whitespace in the selection is exactly when there is nothing
/// to capture.
pub proof fn law_blank_selection_is_not_a_capture(raw: Seq<char>)
    ensures
        (split_spec(raw) is None) == !has_ink(raw),
        (split_spec(raw) is None) == (trim(raw).len() == 0),
{
    lemma_unify_keeps_ink(raw);
    lemma_trim_empty_iff(unify_newlines(raw));
    lemma_trim_empty_iff(raw);
}

proof fn lemma_unify_keeps_ink(s: Seq<char>)
    ensures
        has_ink(unify_newlines(s)) == has_ink(s),
    decreases s.len(),
{
    if s.len() > 0 {
        let (head, tail) = if s[0] == '\r' && s.len() > 1 && s[1] == '\n' {
            (seq!['\n'], s.skip(2))
        } else if s[0] == '\r' {
            (seq!['\n'], s.drop_first())
        } else {
            (seq![s[0]], s.drop_first())
        };
        lemma_unify_keeps_ink(tail);
        let u = unify_newlines(s);
        assert(u =~= head + unify_newlines(tail));
        if has_ink(s) {
            let i = choose|i: int| 0 <= i < s.len() && !is_space(#[trigger] s[i]);
            if i == 0 {
                assert(!is_space(u[0]));
            } else if s[0] == '\r' && s.len() > 1 && s[1] == '\n' {
                assert(i >= 2);
                assert(tail[i - 2] == s[i]);
                assert(has_ink(tail));
                let k = choose|k: int|
                    0 <= k < unify_newlines(tail).len() && !is_space(
                        #[trigger] unify_newlines(tail)[k],
                    );
                assert(u[k + 1] == unify_newlines(tail)[k]);
            } else {
                assert(tail[i - 1] == s[i]);
                assert(has_ink(tail));
                let k = choose|k: int|
                    0 <= k < unify_newlines(tail).len() && !is_space(
                        #[trigger] unify_newlines(tail)[k],
                    );
                assert(u[k + 1] == unify_newlines(tail)[k]);
            }
        }
        if has_ink(u) {
            let i = choose|i: int| 0 <= i < u.len() && !is_space(#[trigger] u[i]);
            if i == 0 {
                assert(!is_space(s[0]));
            } else {
                assert(u[i] == unify_newlines(tail)[i - 1]);
                assert(has_ink(unify_newlines(tail)));
                let k = choose|k: int| 0 <= k < tail.len() && !is_space(#[trigger] tail[k]);
                if s[0] == '\r' && s.len() > 1 && s[1] == '\n' {
                    assert(s[k + 2] == tail[k]);
                } else {
                    assert(s[k + 1] == tail[k]);
                }
            }
        }
    }
}

/// A title never runs past `TITLE_MAX` characters plus the ellipsis, and a
/// body never past `BODY_MAX` plus the ellipsis.
pub proof fn law_capture_is_bounded(raw: Seq<char>)
    ensures
        split_spec(raw) matches Some((title, body)) ==> title.len() <= TITLE_MAX + 1 && body.len()
            <= BODY_MAX + 1,
{
    let text = trim(unify_newlines(raw));
    if text.len() > 0 {
        let headline = collapse(first_line(text));
        if headline.len() > TITLE_MAX {
            lemma_trim_end_is_prefix(headline.take(TITLE_MAX as int));
        }
        let (title, body) = split_spec(raw)->0;
        lemma_truncated_len(
            if headline.len() > TITLE_MAX {
                let rest = trim(after_first_line(text));
                if rest.len() == 0 {
                    headline
                } else {
                    headline + seq!['\n', '\n'] + rest
                }
            } else {
                trim(after_first_line(text))
            },
            BODY_MAX as int,
        );
    }
}

/// No carriage return anywhere in the text.
pub open spec fn free_of_cr(s: Seq<char>) -> bool {
    forall|i: int| 0 <= i < s.len() ==> #[trigger] s[i] != '\r'
}

proof fn lemma_unify_free_of_cr(s: Seq<char>)
    ensures
        free_of_cr(unify_newlines(s)),
    decreases s.len(),
{
    if s.len() > 0 {
        let (head, tail) = if s[0] == '\r' && s.len() > 1 && s[1] == '\n' {
            (seq!['\n'], s.skip(2))
        } else if s[0] == '\r' {
            (seq!['\n'], s.drop_first())
        } else {
            (seq![s[0]], s.drop_first())
        };
        lemma_unify_free_of_cr(tail);
        let u = unify_newlines(s);
        assert(u =~= head + unify_newlines(tail));
        assert forall|i: int| 0 <= i < u.len() implies #[trigger] u[i] != '\r' by {
            if i > 0 {
                assert(u[i] == unify_newlines(tail)[i - 1]);
            }
        }
    }
}

proof fn lemma_subrange_free_of_cr(s: Seq<char>, a: int, b: int)
    requires
        free_of_cr(s),
        0 <= a <= b <= s.len(),
    ensures
        free_of_cr(s.subrange(a, b)),
{
    let t = s.subrange(a, b);
    assert forall|i: int| 0 <= i < t.len() implies #[trigger] t[i] != '\r' by {
        assert(t[i] == s[i + a]);
    }
}

proof fn lemma_trim_free_of_cr(s: Seq<char>)
    requires
        free_of_cr(s),
    ensures
        free_of_cr(trim(s)),
{
    lemma_trim_start_is_suffix(s);
    let t = trim_start(s);
    lemma_subrange_free_of_cr(s, s.len() - t.len(), s.len() as int);
    assert(t =~= s.subrange(s.len() - t.len(), s.len() as int));
    lemma_trim_end_is_prefix(t);
    lemma_subrange_free_of_cr(t, 0, trim_end(t).len() as int);
    assert(trim_end(t) =~= t.subrange(0, trim_end(t).len() as int));
}

proof fn lemma_tidy_free_of_cr(s: Seq<char>)
    requires
        is_tidy_line(s),
    ensures
        free_of_cr(s),
{
    assert forall|i: int| 0 <= i < s.len() implies #[trigger] s[i] != '\r' by {
        if s[i] == '\r' {
            assert(is_space(s[i]));
        }
    }
}

/// Truncation keeps text free of carriage returns and of whitespace at its
/// edges.
proof fn lemma_truncated_clean(s: Seq<char>, max: int)
    requires
        free_of_cr(s),
        s.len() > 0 ==> !is_space(s[0]) && !is_space(s.last()),
        max >= 0,
    ensures
        free_of_cr(truncated(s, max)),
        trim(truncated(s, max)) == truncated(s, max),
{
    if s.len() > max {
        let t = s.take(max);
        lemma_trim_end_is_prefix(t);
        let p = trim_end(t);
        let r = p.push(ellipsis());
        assert(r == truncated(s, max));
        assert forall|i: int| 0 <= i < r.len() implies #[trigger] r[i] != '\r' by {
            if i < p.len() {
                assert(r[i] == s[i]);
            }
        }
        if p.len() > 0 {
            assert(r[0] == s[0]);
        }
        assert(!is_space(ellipsis()));
        lemma_trim_keeps(r);
    } else {
        lemma_trim_keeps(s);
    }
}

/// A captured title is one nonempty line of single-spaced words; a captured
/// body holds no carriage return and neither starts nor ends with
/// whitespace.
pub proof fn law_capture_is_clean(raw: Seq<char>)
    ensures
        split_spec(raw) matches Some((title, body)) ==> {
            &&& title.len() > 0
            &&& is_tidy_line(title)
            &&& trim(title) == title
            &&& free_of_cr(body)
            &&& trim(body) == body
        },
{
    let u = unify_newlines(raw);
    let text = trim(u);
    if text.len() > 0 {
        lemma_trim_empty_iff(u);
        lemma_line_end(text);
        assert(is_space('\n'));
        let fl = first_line(text);
        assert(fl[0] == text[0]);
        assert(has_ink(fl));
        lemma_collapse_tidy(fl);
        let headline = collapse(fl);
        lemma_tidy_edges(headline);
        lemma_tidy_free_of_cr(headline);
        lemma_unify_free_of_cr(raw);
        lemma_trim_free_of_cr(u);
        let after = after_first_line(text);
        if line_end(text) < text.len() {
            lemma_subrange_free_of_cr(text, line_end(text) + 1, text.len() as int);
            assert(after =~= text.subrange(line_end(text) + 1, text.len() as int));
        }
        lemma_trim_free_of_cr(after);
        let rest = trim(after);
        lemma_trim_empty_iff(after);
        if headline.len() > TITLE_MAX {
            let cut = trim_end(headline.take(TITLE_MAX as int));
            lemma_tidy_cut(headline, TITLE_MAX as int);
            assert(!is_space(ellipsis()));
            lemma_tidy_push(cut, ellipsis());
            let title = shortened(headline, TITLE_MAX as int);
            lemma_tidy_edges(title);
            lemma_trim_keeps(title);
            let b = if rest.len() == 0 {
                headline
            } else {
                headline + seq!['\n', '\n'] + rest
            };
            if rest.len() > 0 {
                assert forall|i: int| 0 <= i < b.len() implies #[trigger] b[i] != '\r' by {
                    if i < headline.len() {
                        assert(b[i] == headline[i]);
                    } else if i >= headline.len() + 2 {
                        assert(b[i] == rest[i - headline.len() - 2]);
                    }
                }
                assert(b[0] == headline[0]);
                assert(b.last() == rest.last());
            }
            lemma_truncated_clean(b, BODY_MAX as int);
        } else {
            lemma_trim_keeps(headline);
            lemma_truncated_clean(rest, BODY_MAX as int);
        }
    }
}

proof fn lemma_truncated_len(s: Seq<char>, max: int)
    requires
        max >= 0,
    ensures
        truncated(s, max).len() <= max + 1,
{
    if s.len() > max {
        lemma_trim_end_is_prefix(s.take(max));
    }
}

/// A first line too long for a title is cut short in the title but leads
/// the body whole, so not one of its words is lost (as long as the body
/// itself fits).
pub proof fn law_long_first_line_leads_the_body(raw: Seq<char>)
    requires
        split_spec(raw) is Some,
        collapse(first_line(trim(unify_newlines(raw)))).len() > TITLE_MAX,
        collapse(first_line(trim(unify_newlines(raw)))).len() + 2 + trim(
            after_first_line(trim(unify_newlines(raw))),
        ).len() <= BODY_MAX,
    ensures
        (split_spec(raw)->0).1.take(collapse(first_line(trim(unify_newlines(raw)))).len() as int)
            == collapse(first_line(trim(unify_newlines(raw)))),
        (split_spec(raw)->0).0.last() == ellipsis(),
{
    let text = trim(unify_newlines(raw));
    let headline = collapse(first_line(text));
    let rest = trim(after_first_line(text));
    if rest.len() == 0 {
        assert((split_spec(raw)->0).1 == headline);
        assert(headline.take(headline.len() as int) =~= headline);
    } else {
        let b = headline + seq!['\n', '\n'] + rest;
        assert((split_spec(raw)->0).1 == b);
        assert(b.take(headline.len() as int) =~= headline);
    }
}

// -------------------------------------------------------------- watcher

/// How quick capture is configured, resolved from settings.
#[derive(Debug, Clone, Copy, PartialEq, Eq, Structural)]
pub struct Config {
    pub key: TapKey,
    pub window_ms: u64,
}

#[verifier::external_type_specification]
#[verifier::external_body]
#[verifier::reject_recursive_types(T)]
pub struct ExReceiver<T>(std::sync::mpsc::Receiver<T>);

/// Everything waiting on the channel drained, keeping only the last item:
/// `Receiver::try_iter` followed by `Iterator::last`.
#[verifier::external_body]
fn drain_last(rx: &std::sync::mpsc::Receiver<Captured>) -> Option<Captured> {
    rx.try_iter().last()
}

/// A running listener: the channel the platform backend sends captures on,
/// the backend's own handle (dropping it stops the backend), and the
/// configuration it was started with.
pub struct Watcher<B> {
    rx: std::sync::mpsc::Receiver<Captured>,
    inner: B,
    config: Config,
}

impl<B> Watcher<B> {
    pub closed spec fn spec_config(&self) -> Config {
        self.config
    }

    /// Starts listening, given what the platform backend's start returned
    /// for `config`: the listener runs exactly when the backend started, and
    /// the backend's error, meant to be shown to the user, comes back
    /// unchanged.
    pub fn start(config: Config, started: Result<(std::sync::mpsc::Receiver<Captured>, B), String>) -> (r:
        Result<Watcher<B>, String>)
        ensures
            r is Ok <==> started is Ok,
            r matches Ok(w) ==> w.spec_config() == config,
            started matches Err(m) ==> r matches Err(e) && e@ == m@,
    {
        match started {
            Ok((rx, inner)) => Ok(Watcher { rx, inner, config }),
            Err(m) => Err(m),
        }
    }

    pub fn config(&self) -> (c: Config)
        ensures
            c == self.spec_config(),
    {
        self.config
    }

    /// The most recent capture since the last call, if any. Two double-taps
    /// between frames mean the second one is what was meant, so the earlier
    /// ones are dropped. What arrives depends on the listener thread, so
    /// nothing is promised of it.
    pub fn poll(&self) -> Option<Captured> {
        drain_last(&self.rx)
    }
}

} // verus!
