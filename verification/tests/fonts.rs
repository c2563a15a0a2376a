use flodo::fonts::{
    default_mono, default_proportional, emphasis_for, first_of, is_loadable, select_families,
    validate_font, with_fallbacks, find_styled, Emphasis, FaceRecord, FaceStyle, FamilyInfo,
    StyledFace,
};
use flodo::settings::FontChoice;

fn good_font_bytes() -> Vec<u8> {
    let defs = eframe::egui::FontDefinitions::default();
    let (_, data) = defs.font_data.iter().next().expect("egui ships default fonts");
    let blob: &dyn AsRef<[u8]> = &*data.font;
    blob.as_ref().to_vec()
}

#[test]
fn validation_rejects_anything_epaint_would_panic_on() {
    assert!(!is_loadable(b"", 0));
    assert!(!is_loadable(b"not a font", 0));
    assert!(!is_loadable(&[0u8; 512], 0));
    assert!(!is_loadable(&vec![0xff; 4096], 0));

    let good = good_font_bytes();
    assert!(!is_loadable(&good[..good.len() / 4], 0), "truncated");
    assert!(!is_loadable(&good, 99));
}

#[test]
fn validation_accepts_a_real_font() {
    assert!(is_loadable(&good_font_bytes(), 0));
}

#[test]
fn a_chosen_font_is_kept_only_when_it_can_be_drawn() {
    let choice = FontChoice { family: "Junk".into(), path: "/junk.ttf".into(), index: 0 };
    assert!(validate_font(&choice, b"absolutely not a font".to_vec()).is_none());
    let good = good_font_bytes();
    let (bytes, index) = validate_font(&choice, good.clone()).unwrap();
    assert_eq!(bytes, good);
    assert_eq!(index, 0);
}

fn face(family: &str, mono: bool, regular: bool, loadable: bool) -> FaceRecord {
    FaceRecord {
        family: Some(family.to_string()),
        path: Some(format!("/fonts/{family}.ttf")),
        index: 0,
        monospaced: mono,
        regular,
        loadable,
    }
}

#[test]
fn only_loadable_regular_faces_of_new_families_are_offered() {
    let faces = vec![
        face("Inter", false, true, true),
        face("Inter", false, true, true),
        face(".SFNS", false, true, true),
        face("Emoji", false, true, false),
        face("Bold Only", false, false, true),
        FaceRecord { path: None, ..face("Memory", false, true, true) },
        face("Menlo", true, true, true),
    ];
    let names: Vec<String> = select_families(&faces).into_iter().map(|f| f.name).collect();
    assert_eq!(names, vec!["Inter", "Menlo"]);
}

fn family(name: &str, mono: bool) -> FamilyInfo {
    FamilyInfo { name: name.to_string(), path: format!("/f/{name}"), index: 0, monospaced: mono }
}

#[test]
fn preferred_families_win_then_any_of_the_right_spacing() {
    let list = vec![family("Zed Mono", true), family("Menlo", true), family("Arial", false)];
    assert_eq!(default_mono(&list).unwrap().name, "Menlo");
    assert_eq!(default_proportional(&list).unwrap().name, "Arial");
    let list = vec![family("Zed Mono", true), family("Inter", false), family("DejaVu Sans", false)];
    assert_eq!(default_proportional(&list).unwrap().name, "Inter");
    assert_eq!(default_mono(&list).unwrap().name, "Zed Mono");
    assert!(default_mono(&[]).is_none());
}

#[test]
fn first_of_takes_the_first_preference_that_exists() {
    let list = vec![family("B", false), family("A", false)];
    assert_eq!(first_of(&list, &["C", "A", "B"]).unwrap().name, "A");
    assert!(first_of(&list, &["C"]).is_none());
}

#[test]
fn a_static_face_cannot_be_instanced_into_bold_or_italic() {
    let good = good_font_bytes();
    assert_eq!(emphasis_for(&good, 0, true, false), Emphasis::Regular);
    assert_eq!(emphasis_for(&good, 0, false, true), Emphasis::Regular);
    assert_eq!(emphasis_for(b"junk", 0, true, true), Emphasis::Regular);
    assert_eq!(
        emphasis_for(&good, 0, false, false),
        Emphasis::Instance { bold: false, italic: None }
    );
}

#[test]
fn fallbacks_are_appended_once_and_in_order() {
    let names = |v: &[&str]| v.iter().map(|s| s.to_string()).collect::<Vec<String>>();
    let mut stack = names(&["Custom", "emoji-icon-font"]);
    with_fallbacks(&mut stack, &names(&["Ubuntu-Light", "emoji-icon-font", "NotoEmoji", "Ubuntu-Light"]));
    assert_eq!(stack, names(&["Custom", "emoji-icon-font", "Ubuntu-Light", "NotoEmoji"]));
    let mut empty: Vec<String> = Vec::new();
    with_fallbacks(&mut empty, &names(&[]));
    assert!(empty.is_empty());
}

#[test]
fn the_earliest_preference_present_wins_over_list_order() {
    let list = vec![
        family("Noto Sans", false),
        family("Inter", false),
        family("Inter", false),
        family("Menlo", true),
    ];
    assert_eq!(default_proportional(&list).unwrap().name, "Inter");
    let list = vec![family("Fira Code", true), family("Zed Sans", false)];
    assert_eq!(default_proportional(&list).unwrap().name, "Zed Sans");
    assert!(default_proportional(&[family("Fira Code", true)]).is_none());
}

fn styled(family: &str, weight: u16, style: FaceStyle, file: bool) -> StyledFace {
    StyledFace {
        families: vec!["Other".to_string(), family.to_string()],
        weight,
        style,
        file: if file { Some(format!("/fonts/{family}-{weight}.ttf")) } else { None },
        index: 0,
    }
}

#[test]
fn an_oblique_face_serves_for_italic_but_not_the_other_way() {
    let faces = vec![
        styled("DejaVu Sans", 400, FaceStyle::Normal, true),
        styled("DejaVu Sans", 700, FaceStyle::Oblique, false),
        styled("DejaVu Sans", 700, FaceStyle::Oblique, true),
        styled("DejaVu Sans", 400, FaceStyle::Oblique, true),
    ];
    assert_eq!(find_styled(&faces, "DejaVu Sans", 700, FaceStyle::Italic), Some(2));
    assert_eq!(find_styled(&faces, "DejaVu Sans", 400, FaceStyle::Italic), Some(3));
    assert_eq!(find_styled(&faces, "DejaVu Sans", 700, FaceStyle::Normal), None);
    assert_eq!(find_styled(&faces, "Other", 400, FaceStyle::Normal), Some(0));
    let italic_only = vec![styled("Serif", 400, FaceStyle::Italic, true)];
    assert_eq!(find_styled(&italic_only, "Serif", 400, FaceStyle::Oblique), None);
    assert_eq!(find_styled(&italic_only, "Sans", 400, FaceStyle::Italic), None);
}
