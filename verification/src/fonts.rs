//! Choosing fonts: which system faces become selectable families, which
//! family a fresh install starts with, and whether font bytes can be drawn.
//!
//! The text renderer panics outright on font bytes it cannot parse, so every
//! font is validated with `skrifa` before it is offered or loaded.

use vstd::prelude::*;

use skrifa::MetadataProvider;

use crate::settings::FontChoice;
use crate::text::same_str;

verus! {

/// One selectable font family.
#[derive(Debug, Clone, PartialEq, Eq, PartialOrd, Ord)]
pub struct FamilyInfo {
    pub name: String,
    pub path: String,
    pub index: u32,
    pub monospaced: bool,
}

impl FamilyInfo {
    /// A copy of this family.
    pub fn copied(&self) -> (r: FamilyInfo)
        ensures
            r == *self,
    {
        FamilyInfo {
            name: self.name.clone(),
            path: self.path.clone(),
            index: self.index,
            monospaced: self.monospaced,
        }
    }
}

// ------------------------------------------------------------ validation

/// Whether `skrifa` parses face `index` of these bytes and finds glyph
/// outlines in it.
pub uninterp spec fn font_is_loadable(bytes: Seq<u8>, index: u32) -> bool;

/// `skrifa::FontRef::from_index(bytes, index)` succeeds and the face's
/// `outline_glyphs().format()` is `Some`: the renderer can parse it, and it
/// is not a bitmap-only face (colour emoji) that would draw as blank boxes.
#[verifier::external_body]
pub fn is_loadable(bytes: &[u8], index: u32) -> (r: bool)
    ensures
        r == font_is_loadable(bytes@, index),
{
    match skrifa::FontRef::from_index(bytes, index) {
        Ok(font) => font.outline_glyphs().format().is_some(),
        Err(_) => false,
    }
}

/// Keeps a chosen font's bytes only if they can be drawn.
pub fn validate_font(choice: &FontChoice, bytes: Vec<u8>) -> (r: Option<(Vec<u8>, u32)>)
    ensures
        font_is_loadable(bytes@, choice.index) ==> (r matches Some((b, i)) && b@ == bytes@ && i
            == choice.index),
        !font_is_loadable(bytes@, choice.index) ==> r is None,
{
    if is_loadable(bytes.as_slice(), choice.index) {
        Some((bytes, choice.index))
    } else {
        None
    }
}

// ------------------------------------------------------------ the picker

/// What the font database says about one face.
#[derive(Debug, Clone)]
pub struct FaceRecord {
    /// The face's first family name, if it has one.
    pub family: Option<String>,
    /// The file it lives in, if it is a file at all.
    pub path: Option<String>,
    pub index: u32,
    pub monospaced: bool,
    /// Normal weight, upright style.
    pub regular: bool,
    /// The face passed [`is_loadable`].
    pub loadable: bool,
}

/// A regular face from a file, with a family name that isn't one of
/// Apple's internal dot-prefixed ones.
pub open spec fn is_candidate(f: FaceRecord) -> bool {
    &&& f.regular
    &&& f.path is Some
    &&& f.family is Some
    &&& !(f.family->0@.len() > 0 && f.family->0@[0] == '.')
}

pub open spec fn family_of(f: FaceRecord) -> FamilyInfo {
    FamilyInfo { name: f.family->0, path: f.path->0, index: f.index, monospaced: f.monospaced }
}

/// Some family already chosen has this name.
pub open spec fn has_family(fs: Seq<FamilyInfo>, name: Seq<char>) -> bool {
    exists|j: int| 0 <= j < fs.len() && (#[trigger] fs[j]).name@ == name
}

/// The families offered, in scan order: the first loadable regular face of
/// each family name.
pub open spec fn select_spec(faces: Seq<FaceRecord>) -> Seq<FamilyInfo>
    decreases faces.len(),
{
    if faces.len() == 0 {
        Seq::empty()
    } else {
        let acc = select_spec(faces.drop_last());
        let f = faces.last();
        if is_candidate(f) && !has_family(acc, f.family->0@) && f.loadable {
            acc.push(family_of(f))
        } else {
            acc
        }
    }
}

fn has_named(fs: &Vec<FamilyInfo>, name: &str) -> (r: bool)
    ensures
        r == has_family(fs@, name@),
{
    let mut i: usize = 0;
    while i < fs.len()
        invariant
            i <= fs@.len(),
            forall|j: int| 0 <= j < i ==> (#[trigger] fs@[j]).name@ != name@,
        decreases fs@.len() - i,
    {
        if same_str(fs[i].name.as_str(), name) {
            return true;
        }
        i += 1;
    }
    false
}

/// Picks the selectable families out of a scan of the font database.
pub fn select_families(faces: &[FaceRecord]) -> (r: Vec<FamilyInfo>)
    ensures
        r@ == select_spec(faces@),
{
    let mut out: Vec<FamilyInfo> = Vec::new();
    let mut i: usize = 0;
    while i < faces.len()
        invariant
            i <= faces@.len(),
            out@ == select_spec(faces@.take(i as int)),
        decreases faces@.len() - i,
    {
        proof {
            assert(faces@.take(i + 1).drop_last() =~= faces@.take(i as int));
        }
        let f = &faces[i];
        if f.regular {
            match (&f.family, &f.path) {
                (Some(name), Some(path)) => {
                    let cs = crate::text::chars_of(name.as_str());
                    let dotted = cs.len() > 0 && cs[0] == '.';
                    if !dotted && !has_named(&out, name.as_str()) && f.loadable {
                        out.push(
                            FamilyInfo {
                                name: name.clone(),
                                path: path.clone(),
                                index: f.index,
                                monospaced: f.monospaced,
                            },
                        );
                    }
                },
                _ => {},
            }
        }
        i += 1;
    }
    proof {
        assert(faces@.take(faces@.len() as int) =~= faces@);
    }
    out
}

// ------------------------------------------------------------ defaults

/// The first family named `want`.
pub open spec fn named(avail: Seq<FamilyInfo>, want: Seq<char>) -> Option<FamilyInfo>
    decreases avail.len(),
{
    if avail.len() == 0 {
        None
    } else if avail[0].name@ == want {
        Some(avail[0])
    } else {
        named(avail.drop_first(), want)
    }
}

/// The first preferred name that is available.
pub open spec fn first_of_spec(avail: Seq<FamilyInfo>, preferred: Seq<Seq<char>>) -> Option<
    FamilyInfo,
>
    decreases preferred.len(),
{
    if preferred.len() == 0 {
        None
    } else {
        match named(avail, preferred[0]) {
            Some(f) => Some(f),
            None => first_of_spec(avail, preferred.drop_first()),
        }
    }
}

/// The first family that is (or is not) monospaced.
pub open spec fn first_spaced(avail: Seq<FamilyInfo>, mono: bool) -> Option<FamilyInfo>
    decreases avail.len(),
{
    if avail.len() == 0 {
        None
    } else if avail[0].monospaced == mono {
        Some(avail[0])
    } else {
        first_spaced(avail.drop_first(), mono)
    }
}

pub open spec fn mono_preferences() -> Seq<Seq<char>> {
    seq![
        "SF Mono"@,
        "Menlo"@,
        "Monaco"@,
        "JetBrains Mono"@,
        "Cascadia Mono"@,
        "Consolas"@,
        "DejaVu Sans Mono"@,
        "Liberation Mono"@,
    ]
}

pub open spec fn proportional_preferences() -> Seq<Seq<char>> {
    seq![
        "SF Pro Text"@,
        "SF Pro"@,
        "Helvetica Neue"@,
        "Segoe UI Variable Text"@,
        "Segoe UI"@,
        "Inter"@,
        "DejaVu Sans"@,
        "Liberation Sans"@,
        "Noto Sans"@,
    ]
}

fn find_named(available: &[FamilyInfo], want: &str) -> (r: Option<FamilyInfo>)
    ensures
        r == named(available@, want@),
{
    let mut i: usize = 0;
    proof {
        assert(available@.skip(0) =~= available@);
    }
    while i < available.len()
        invariant
            i <= available@.len(),
            named(available@, want@) == named(available@.skip(i as int), want@),
        decreases available@.len() - i,
    {
        proof {
            assert(available@.skip(i as int).drop_first() =~= available@.skip(i + 1));
            assert(available@.skip(i as int)[0] == available@[i as int]);
        }
        if same_str(available[i].name.as_str(), want) {
            return Some(available[i].copied());
        }
        i += 1;
    }
    None
}

fn find_spaced(available: &[FamilyInfo], mono: bool) -> (r: Option<FamilyInfo>)
    ensures
        r == first_spaced(available@, mono),
{
    let mut i: usize = 0;
    proof {
        assert(available@.skip(0) =~= available@);
    }
    while i < available.len()
        invariant
            i <= available@.len(),
            first_spaced(available@, mono) == first_spaced(available@.skip(i as int), mono),
        decreases available@.len() - i,
    {
        proof {
            assert(available@.skip(i as int).drop_first() =~= available@.skip(i + 1));
            assert(available@.skip(i as int)[0] == available@[i as int]);
        }
        if available[i].monospaced == mono {
            return Some(available[i].copied());
        }
        i += 1;
    }
    None
}

/// The first preferred family that is available.
pub fn first_of(available: &[FamilyInfo], preferred: &[&str]) -> (r: Option<FamilyInfo>)
    ensures
        r == first_of_spec(available@, preferred@.map_values(|s: &str| s@)),
{
    let ghost prefs = preferred@.map_values(|s: &str| s@);
    let mut k: usize = 0;
    proof {
        assert(prefs.skip(0) =~= prefs);
    }
    while k < preferred.len()
        invariant
            k <= preferred@.len(),
            prefs == preferred@.map_values(|s: &str| s@),
            first_of_spec(available@, prefs) == first_of_spec(available@, prefs.skip(k as int)),
        decreases preferred@.len() - k,
    {
        proof {
            assert(prefs.skip(k as int).drop_first() =~= prefs.skip(k + 1));
            assert(prefs.skip(k as int)[0] == preferred@[k as int]@);
        }
        let found = find_named(available, preferred[k]);
        if found.is_some() {
            return found;
        }
        k += 1;
    }
    None
}

/// The family a first run starts with: the first preferred family that is
/// available, else the first available family of the right spacing.
pub open spec fn default_family(avail: Seq<FamilyInfo>, mono: bool) -> Option<FamilyInfo> {
    let prefs = if mono {
        mono_preferences()
    } else {
        proportional_preferences()
    };
    match first_of_spec(avail, prefs) {
        Some(f) => Some(f),
        None => first_spaced(avail, mono),
    }
}

/// A sensible monospace default for a first run: the first preferred
/// family available, else the first monospaced one.
pub fn default_mono(available: &[FamilyInfo]) -> (r: Option<FamilyInfo>)
    ensures
        r == default_family(available@, true),
{
    let prefs: [&str; 8] = [
        "SF Mono",
        "Menlo",
        "Monaco",
        "JetBrains Mono",
        "Cascadia Mono",
        "Consolas",
        "DejaVu Sans Mono",
        "Liberation Mono",
    ];
    let p: &[&str] = &prefs;
    assert(p@.map_values(|s: &str| s@) =~= mono_preferences());
    match first_of(available, p) {
        Some(f) => Some(f),
        None => find_spaced(available, true),
    }
}

/// A sensible proportional default. This matters beyond taste: the bundled
/// font has no bold or italic face, so markdown emphasis only renders on a
/// real system family.
pub fn default_proportional(available: &[FamilyInfo]) -> (r: Option<FamilyInfo>)
    ensures
        r == default_family(available@, false),
{
    let prefs: [&str; 9] = [
        "SF Pro Text",
        "SF Pro",
        "Helvetica Neue",
        "Segoe UI Variable Text",
        "Segoe UI",
        "Inter",
        "DejaVu Sans",
        "Liberation Sans",
        "Noto Sans",
    ];
    let p: &[&str] = &prefs;
    assert(p@.map_values(|s: &str| s@) =~= proportional_preferences());
    match first_of(available, p) {
        Some(f) => Some(f),
        None => find_spaced(available, false),
    }
}

} // verus!

verus! {

// ------------------------------------------------------------ emphasis

/// The `wght` (weight) variation axis tag, its four bytes read big-endian.
pub const AXIS_WGHT: u32 = 0x7767_6874;

/// The `ital` (italic) variation axis tag.
pub const AXIS_ITAL: u32 = 0x6974_616c;

/// The `slnt` (slant) variation axis tag.
pub const AXIS_SLNT: u32 = 0x736c_6e74;

/// The tags of the variation axes `skrifa` finds in face `index` of these
/// bytes, in its order, each read big-endian; none for a face that does not
/// parse.
pub uninterp spec fn font_axis_tags(bytes: Seq<u8>, index: u32) -> Seq<u32>;

/// `skrifa::FontRef::from_index(bytes, index)` and then the tag of each of
/// the face's `axes()`, as four big-endian bytes; an empty list when the
/// face does not parse.
#[verifier::external_body]
fn axis_tags(bytes: &[u8], index: u32) -> (r: Vec<u32>)
    ensures
        r@ == font_axis_tags(bytes@, index),
{
    match skrifa::FontRef::from_index(bytes, index) {
        Ok(font) => font.axes().iter().map(|a| u32::from_be_bytes(a.tag().to_be_bytes())).collect(),
        Err(_) => Vec::new(),
    }
}

/// Whether face `index` of these bytes has a variation axis with this tag.
pub open spec fn has_axis_spec(bytes: Seq<u8>, index: u32, tag: u32) -> bool {
    font_axis_tags(bytes, index).contains(tag)
}

fn tag_among(tags: &Vec<u32>, tag: u32) -> (r: bool)
    ensures
        r == tags@.contains(tag),
{
    let mut i: usize = 0;
    while i < tags.len()
        invariant
            i <= tags@.len(),
            forall|j: int| 0 <= j < i ==> tags@[j] != tag,
        decreases tags@.len() - i,
    {
        if tags[i] == tag {
            return true;
        }
        i += 1;
    }
    false
}

/// Which axis slants a face into italic.
#[derive(Debug, Clone, Copy, PartialEq, Eq, Structural)]
pub enum Slant {
    /// The `ital` axis, set to 1.
    Ital,
    /// The `slnt` axis, leaned back by ten degrees.
    Slnt,
}

/// How a bold or italic family is drawn when the system has no static face
/// for it.
#[derive(Debug, Clone, Copy, PartialEq, Eq, Structural)]
pub enum Emphasis {
    /// The regular file instanced along its variation axes: heavier when
    /// `bold`, slanted along `italic` when that is set.
    Instance { bold: bool, italic: Option<Slant> },
    /// The regular face as it is: emphasis shows as regular text rather than
    /// being faked with a skew.
    Regular,
}

/// The emphasis a face can give, from the axes it has.
pub open spec fn emphasis_spec(
    has_wght: bool,
    has_ital: bool,
    has_slnt: bool,
    bold: bool,
    italic: bool,
) -> Emphasis {
    let can_bold = !bold || has_wght;
    let can_italic = !italic || has_ital || has_slnt;
    if can_bold && can_italic {
        Emphasis::Instance {
            bold,
            italic: if italic {
                Some(
                    if has_ital {
                        Slant::Ital
                    } else {
                        Slant::Slnt
                    },
                )
            } else {
                None
            },
        }
    } else {
        Emphasis::Regular
    }
}

/// How face `index` of these bytes draws a bold and/or italic family.
pub fn emphasis_for(bytes: &[u8], index: u32, bold: bool, italic: bool) -> (r: Emphasis)
    ensures
        r == emphasis_spec(
            has_axis_spec(bytes@, index, AXIS_WGHT),
            has_axis_spec(bytes@, index, AXIS_ITAL),
            has_axis_spec(bytes@, index, AXIS_SLNT),
            bold,
            italic,
        ),
{
    let tags = axis_tags(bytes, index);
    let wght = tag_among(&tags, AXIS_WGHT);
    let ital = tag_among(&tags, AXIS_ITAL);
    let slnt = tag_among(&tags, AXIS_SLNT);
    let can_bold = !bold || wght;
    let can_italic = !italic || ital || slnt;
    if can_bold && can_italic {
        let slant = if italic {
            Some(
                if ital {
                    Slant::Ital
                } else {
                    Slant::Slnt
                },
            )
        } else {
            None
        };
        Emphasis::Instance { bold, italic: slant }
    } else {
        Emphasis::Regular
    }
}

} // verus!

verus! {

/// A font that does not load is never offered: every family offered comes
/// from a regular, loadable face of the scan, and no family name is offered
/// twice.
pub proof fn law_offered_fonts_load(faces: Seq<FaceRecord>)
    ensures
        forall|i: int|
            0 <= i < select_spec(faces).len() ==> exists|j: int|
                0 <= j < faces.len() && is_candidate(faces[j]) && faces[j].loadable
                    && #[trigger] select_spec(faces)[i] == family_of(faces[j]),
        forall|i: int, k: int|
            0 <= i < k < select_spec(faces).len() ==> (#[trigger] select_spec(faces)[i]).name@
                != (#[trigger] select_spec(faces)[k]).name@,
    decreases faces.len(),
{
    if faces.len() > 0 {
        let p = faces.drop_last();
        law_offered_fonts_load(p);
        let acc = select_spec(p);
        let out = select_spec(faces);
        assert forall|i: int| 0 <= i < out.len() implies exists|j: int|
            0 <= j < faces.len() && is_candidate(faces[j]) && faces[j].loadable
                && #[trigger] out[i] == family_of(faces[j]) by {
            if i < acc.len() {
                assert(out[i] == acc[i]);
                let j = choose|j: int|
                    0 <= j < p.len() && is_candidate(p[j]) && p[j].loadable && acc[i]
                        == family_of(p[j]);
                assert(faces[j] == p[j]);
            } else {
                assert(out[i] == family_of(faces.last()));
                assert(faces[faces.len() - 1] == faces.last());
            }
        }
        assert forall|i: int, k: int|
            0 <= i < k < out.len() implies (#[trigger] out[i]).name@ != (
            #[trigger] out[k]).name@ by {
            if k < acc.len() {
                assert(out[i] == acc[i] && out[k] == acc[k]);
            } else {
                assert(out[i] == acc[i]);
                let f = faces.last();
                assert(out[k] == family_of(f));
                if acc[i].name@ == f.family->0@ {
                    assert(has_family(acc, f.family->0@));
                }
            }
        }
    }
}

/// `avail[i]` is the first family named `want`.
pub open spec fn first_named_at(avail: Seq<FamilyInfo>, want: Seq<char>, i: int) -> bool {
    &&& 0 <= i < avail.len()
    &&& avail[i].name@ == want
    &&& forall|j: int| 0 <= j < i ==> (#[trigger] avail[j]).name@ != want
}

/// `avail[i]` is the first family of the wanted spacing.
pub open spec fn first_spaced_at(avail: Seq<FamilyInfo>, mono: bool, i: int) -> bool {
    &&& 0 <= i < avail.len()
    &&& avail[i].monospaced == mono
    &&& forall|j: int| 0 <= j < i ==> (#[trigger] avail[j]).monospaced != mono
}

/// The preferred names for a first run, in order of preference.
pub open spec fn preferences(mono: bool) -> Seq<Seq<char>> {
    if mono {
        mono_preferences()
    } else {
        proportional_preferences()
    }
}

proof fn lemma_named(avail: Seq<FamilyInfo>, want: Seq<char>)
    ensures
        (named(avail, want) is None) == !has_family(avail, want),
        named(avail, want) is Some ==> exists|i: int|
            first_named_at(avail, want, i) && named(avail, want) == Some(#[trigger] avail[i]),
    decreases avail.len(),
{
    if avail.len() > 0 {
        let t = avail.drop_first();
        lemma_named(t, want);
        if avail[0].name@ == want {
            assert(first_named_at(avail, want, 0));
        } else {
            if has_family(avail, want) {
                let j = choose|j: int| 0 <= j < avail.len() && (#[trigger] avail[j]).name@ == want;
                assert(t[j - 1] == avail[j]);
            }
            if has_family(t, want) {
                let j = choose|j: int| 0 <= j < t.len() && (#[trigger] t[j]).name@ == want;
                assert(avail[j + 1] == t[j]);
            }
            if named(t, want) is Some {
                let i = choose|i: int|
                    first_named_at(t, want, i) && named(t, want) == Some(#[trigger] t[i]);
                assert(avail[i + 1] == t[i]);
                assert forall|j: int| 0 <= j < i + 1 implies (#[trigger] avail[j]).name@ != want by {
                    if j > 0 {
                        assert(avail[j] == t[j - 1]);
                    }
                }
                assert(first_named_at(avail, want, i + 1));
            }
        }
    }
}

proof fn lemma_first_of(avail: Seq<FamilyInfo>, prefs: Seq<Seq<char>>)
    ensures
        (first_of_spec(avail, prefs) is None) == (forall|p: int|
            0 <= p < prefs.len() ==> !has_family(avail, #[trigger] prefs[p])),
        first_of_spec(avail, prefs) is Some ==> exists|p: int, i: int|
            #![trigger first_named_at(avail, prefs[p], i)]
            {
                &&& 0 <= p < prefs.len()
                &&& (forall|q: int| 0 <= q < p ==> !has_family(avail, #[trigger] prefs[q]))
                &&& first_named_at(avail, prefs[p], i)
                &&& first_of_spec(avail, prefs) == Some(avail[i])
            },
    decreases prefs.len(),
{
    if prefs.len() > 0 {
        let t = prefs.drop_first();
        lemma_first_of(avail, t);
        lemma_named(avail, prefs[0]);
        if named(avail, prefs[0]) is Some {
            let i = choose|i: int|
                first_named_at(avail, prefs[0], i) && named(avail, prefs[0]) == Some(
                    #[trigger] avail[i],
                );
            assert(first_of_spec(avail, prefs) == Some(avail[i]));
        } else {
            assert forall|p: int| 0 <= p < t.len() implies t[p] == prefs[p + 1] by {}
            if forall|p: int| 0 <= p < prefs.len() ==> !has_family(avail, #[trigger] prefs[p]) {
                assert forall|p: int| 0 <= p < t.len() implies !has_family(avail, #[trigger] t[p]) by {
                    assert(t[p] == prefs[p + 1]);
                }
            }
            if forall|p: int| 0 <= p < t.len() ==> !has_family(avail, #[trigger] t[p]) {
                assert forall|p: int| 0 <= p < prefs.len() implies !has_family(avail, #[trigger] prefs[p]) by {
                    if p > 0 {
                        assert(prefs[p] == t[p - 1]);
                    }
                }
            }
            if first_of_spec(avail, t) is Some {
                let (p, i) = choose|p: int, i: int|
                    #![trigger first_named_at(avail, t[p], i)]
                    {
                        &&& 0 <= p < t.len()
                        &&& (forall|q: int| 0 <= q < p ==> !has_family(avail, #[trigger] t[q]))
                        &&& first_named_at(avail, t[p], i)
                        &&& first_of_spec(avail, t) == Some(avail[i])
                    };
                assert(prefs[p + 1] == t[p]);
                assert forall|q: int| 0 <= q < p + 1 implies !has_family(avail, #[trigger] prefs[q]) by {
                    if q > 0 {
                        assert(prefs[q] == t[q - 1]);
                    }
                }
            }
        }
    }
}

proof fn lemma_first_spaced(avail: Seq<FamilyInfo>, mono: bool)
    ensures
        (first_spaced(avail, mono) is None) == (forall|i: int|
            0 <= i < avail.len() ==> (#[trigger] avail[i]).monospaced != mono),
        first_spaced(avail, mono) is Some ==> exists|i: int|
            first_spaced_at(avail, mono, i) && first_spaced(avail, mono) == Some(#[trigger] avail[i]),
    decreases avail.len(),
{
    if avail.len() > 0 {
        let t = avail.drop_first();
        lemma_first_spaced(t, mono);
        if avail[0].monospaced == mono {
            assert(first_spaced_at(avail, mono, 0));
        } else {
            if forall|i: int| 0 <= i < t.len() ==> (#[trigger] t[i]).monospaced != mono {
                assert forall|i: int| 0 <= i < avail.len() implies (#[trigger] avail[i]).monospaced
                    != mono by {
                    if i > 0 {
                        assert(avail[i] == t[i - 1]);
                    }
                }
            } else {
                let j = choose|j: int| 0 <= j < t.len() && !((#[trigger] t[j]).monospaced != mono);
                assert(avail[j + 1] == t[j]);
            }
            if first_spaced(t, mono) is Some {
                let i = choose|i: int|
                    first_spaced_at(t, mono, i) && first_spaced(t, mono) == Some(#[trigger] t[i]);
                assert(avail[i + 1] == t[i]);
                assert forall|j: int| 0 <= j < i + 1 implies (#[trigger] avail[j]).monospaced
                    != mono by {
                    if j > 0 {
                        assert(avail[j] == t[j - 1]);
                    }
                }
                assert(first_spaced_at(avail, mono, i + 1));
            }
        }
    }
}

/// A first run's family: for the earliest preferred name that some
/// available family has, the first family with that name; when no preferred
/// name is available, the first family of the wanted spacing; none only when
/// neither exists.
pub proof fn law_default_family(avail: Seq<FamilyInfo>, mono: bool)
    ensures
        (default_family(avail, mono) is None) == ((forall|p: int|
            0 <= p < preferences(mono).len() ==> !has_family(avail, #[trigger] preferences(mono)[p]))
            && forall|i: int| 0 <= i < avail.len() ==> (#[trigger] avail[i]).monospaced != mono),
        (exists|p: int| 0 <= p < preferences(mono).len() && has_family(avail, #[trigger] preferences(mono)[p]))
            ==> exists|p: int, i: int|
            #![trigger first_named_at(avail, preferences(mono)[p], i)]
            {
                &&& 0 <= p < preferences(mono).len()
                &&& (forall|q: int|
                    0 <= q < p ==> !has_family(avail, #[trigger] preferences(mono)[q]))
                &&& first_named_at(avail, preferences(mono)[p], i)
                &&& default_family(avail, mono) == Some(avail[i])
            },
        (forall|p: int|
            0 <= p < preferences(mono).len() ==> !has_family(avail, #[trigger] preferences(mono)[p]))
            ==> default_family(avail, mono) == first_spaced(avail, mono) && (default_family(avail, mono) is Some ==> exists|i: int|
            first_spaced_at(avail, mono, i) && default_family(avail, mono) == Some(#[trigger] avail[i])),
{
    let prefs = preferences(mono);
    lemma_first_of(avail, prefs);
    lemma_first_spaced(avail, mono);
    assert(default_family(avail, mono) == match first_of_spec(avail, prefs) {
        Some(f) => Some(f),
        None => first_spaced(avail, mono),
    });
    if exists|p: int| 0 <= p < prefs.len() && has_family(avail, #[trigger] prefs[p]) {
        let p = choose|p: int| 0 <= p < prefs.len() && has_family(avail, #[trigger] prefs[p]);
        assert(!(forall|p: int| 0 <= p < prefs.len() ==> !has_family(avail, #[trigger] prefs[p])));
    }
}

// ------------------------------------------------------------ styled faces

/// How a face is slanted.
#[derive(Debug, Clone, Copy, PartialEq, Eq, Structural)]
pub enum FaceStyle {
    Normal,
    Italic,
    Oblique,
}

/// What the font database says about a face when looking for a bold or
/// italic member of a family.
#[derive(Debug, Clone)]
pub struct StyledFace {
    /// Every family name the face gives.
    pub families: Vec<String>,
    /// The CSS weight, 400 regular and 700 bold.
    pub weight: u16,
    pub style: FaceStyle,
    /// The file it lives in, if it is a file at all.
    pub file: Option<String>,
    pub index: u32,
}

/// A face of style `have` serves for `want`. Oblique counts as italic:
/// plenty of families ship a slanted face labelled Oblique and no Italic.
pub open spec fn style_fits(have: FaceStyle, want: FaceStyle) -> bool {
    match want {
        FaceStyle::Italic => have == FaceStyle::Italic || have == FaceStyle::Oblique,
        _ => have == want,
    }
}

/// The face is a file of the family with this weight and a fitting style.
pub open spec fn face_fits(f: StyledFace, family: Seq<char>, weight: u16, want: FaceStyle) -> bool {
    &&& f.weight == weight
    &&& style_fits(f.style, want)
    &&& exists|k: int| 0 <= k < f.families@.len() && (#[trigger] f.families@[k])@ == family
    &&& f.file is Some
}

fn names_family(names: &Vec<String>, family: &str) -> (r: bool)
    ensures
        r == exists|k: int| 0 <= k < names@.len() && (#[trigger] names@[k])@ == family@,
{
    let mut i: usize = 0;
    while i < names.len()
        invariant
            i <= names.len(),
            forall|k: int| 0 <= k < i ==> (#[trigger] names@[k])@ != family@,
        decreases names.len() - i,
    {
        if same_str(names[i].as_str(), family) {
            return true;
        }
        i += 1;
    }
    false
}

/// The first face that is a file of `family` with this weight and a style
/// that serves for `want`.
pub fn find_styled(faces: &[StyledFace], family: &str, weight: u16, want: FaceStyle) -> (r:
    Option<usize>)
    ensures
        match r {
            Some(i) => i < faces.len() && face_fits(faces@[i as int], family@, weight, want)
                && forall|j: int| 0 <= j < i ==> !face_fits(#[trigger] faces@[j], family@, weight, want),
            None => forall|j: int|
                0 <= j < faces.len() ==> !face_fits(#[trigger] faces@[j], family@, weight, want),
        },
{
    let mut i: usize = 0;
    while i < faces.len()
        invariant
            i <= faces.len(),
            forall|j: int|
                0 <= j < i ==> !face_fits(#[trigger] faces@[j], family@, weight, want),
        decreases faces.len() - i,
    {
        let f = &faces[i];
        let style_ok = match want {
            FaceStyle::Italic => f.style == FaceStyle::Italic || f.style == FaceStyle::Oblique,
            _ => f.style == want,
        };
        if f.weight == weight && style_ok && names_family(&f.families, family) && f.file.is_some() {
            return Some(i);
        }
        i += 1;
    }
    None
}

// ------------------------------------------------------------ fallbacks

/// A family's font stack with each of `extra` it does not already hold
/// appended, in order, so glyphs it lacks come from the bundled fonts.
pub open spec fn with_fallbacks_spec(stack: Seq<Seq<char>>, extra: Seq<Seq<char>>) -> Seq<
    Seq<char>,
>
    decreases extra.len(),
{
    if extra.len() == 0 {
        stack
    } else {
        let acc = with_fallbacks_spec(stack, extra.drop_last());
        if acc.contains(extra.last()) {
            acc
        } else {
            acc.push(extra.last())
        }
    }
}

/// True when `names` holds `name`.
fn holds_name(names: &Vec<String>, name: &String) -> (r: bool)
    ensures
        r == names@.map_values(|s: String| s@).contains(name@),
{
    let ghost v = names@.map_values(|s: String| s@);
    let mut i: usize = 0;
    while i < names.len()
        invariant
            i <= names.len(),
            v == names@.map_values(|s: String| s@),
            forall|j: int| 0 <= j < i ==> v[j] != name@,
        decreases names.len() - i,
    {
        if names[i] == *name {
            assert(v[i as int] == name@);
            return true;
        }
        i += 1;
    }
    false
}

/// Appends to a family's font stack each fallback it does not already hold,
/// in order.
pub fn with_fallbacks(stack: &mut Vec<String>, extra: &Vec<String>)
    ensures
        final(stack)@.map_values(|s: String| s@) == with_fallbacks_spec(
            old(stack)@.map_values(|s: String| s@),
            extra@.map_values(|s: String| s@),
        ),
{
    let ghost start = stack@.map_values(|s: String| s@);
    let ghost ex = extra@.map_values(|s: String| s@);
    let mut k: usize = 0;
    proof {
        assert(ex.take(0) =~= Seq::<Seq<char>>::empty());
    }
    while k < extra.len()
        invariant
            k <= extra.len(),
            ex == extra@.map_values(|s: String| s@),
            stack@.map_values(|s: String| s@) == with_fallbacks_spec(start, ex.take(k as int)),
        decreases extra.len() - k,
    {
        proof {
            assert(ex.take(k + 1).drop_last() =~= ex.take(k as int));
            assert(ex.take(k + 1).last() == extra@[k as int]@);
        }
        if !holds_name(stack, &extra[k]) {
            let f = extra[k].clone();
            let ghost before = stack@.map_values(|s: String| s@);
            stack.push(f);
            proof {
                assert(stack@.map_values(|s: String| s@) =~= before.push(extra@[k as int]@));
            }
        }
        k += 1;
    }
    proof {
        assert(ex.take(extra.len() as int) =~= ex);
    }
}

} // verus!
