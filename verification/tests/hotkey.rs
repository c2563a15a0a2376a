use flodo::hotkey::{parse, HotkeySpec, Key, Modifiers};

fn mods(alt: bool, control: bool, shift: bool, logo: bool) -> Modifiers {
    Modifiers { alt, control, shift, logo }
}

#[test]
fn parses_the_default_spec() {
    let k = parse("Alt+Space").unwrap();
    assert_eq!(k.mods, mods(true, false, false, false));
    assert_eq!(k.key, Key::Space);
}

#[test]
fn modifier_names_are_flexible_and_case_insensitive() {
    for spec in ["cmd+shift+t", "Command+Shift+T", "META+shift+T"] {
        let k = parse(spec).unwrap_or_else(|| panic!("failed on {spec}"));
        assert_eq!(k.mods, mods(false, false, true, true), "{spec}");
        assert_eq!(k.key, Key::Letter(19), "{spec}");
    }
    assert_eq!(parse("opt+space").unwrap().mods, mods(true, false, false, false));
    assert_eq!(parse("control+1").unwrap().key, Key::Digit(1));
}

#[test]
fn a_bare_key_needs_no_modifier() {
    let k = parse("F").unwrap();
    assert_eq!(k.mods, mods(false, false, false, false));
    assert_eq!(k.key, Key::Letter(5));
}

#[test]
fn unparsable_specs_return_none_instead_of_panicking() {
    for spec in ["", "+", "Alt+", "Alt+Nonsense", "!!!", "ctrl+shift"] {
        assert!(parse(spec).is_none(), "{spec:?} should not parse");
    }
}

#[test]
fn spaces_around_parts_and_aliases_are_accepted() {
    assert_eq!(
        parse(" Ctrl + Return "),
        Some(HotkeySpec { mods: mods(false, true, false, false), key: Key::Enter })
    );
    assert_eq!(parse("win+`").unwrap().key, Key::Backquote);
    assert_eq!(parse("esc").unwrap().key, Key::Escape);
    assert_eq!(parse("Alt+Tab").unwrap().key, Key::Tab);
}

#[test]
fn the_last_key_named_wins() {
    assert_eq!(parse("a+b").unwrap().key, Key::Letter(1));
}

#[test]
fn a_spec_means_the_same_in_any_case() {
    for (a, b) in [("ALT+SPACE", "alt+space"), ("Ctrl+Shift+Q", "cTRL+sHIFT+q"), ("WIN+Esc", "win+esc")] {
        assert_eq!(parse(a), parse(b), "{a} vs {b}");
        assert!(parse(a).is_some());
    }
}
