use flodo::capture::{TapKey, WINDOW_MS_MAX, WINDOW_MS_MIN};
use flodo::platform::Platform;
use flodo::settings::{
    default_hotkey, default_tap_window_ms, default_true, default_version, Appearance, FontChoice,
    QuickCapture,
};

#[test]
fn quick_capture_is_off_until_it_is_asked_for() {
    let q = QuickCapture::default();
    assert!(!q.enabled);
    assert_eq!(q.key, TapKey::Shift);
    assert_eq!(q.window_ms, 400);
}

#[test]
fn a_hand_edited_double_tap_window_is_clamped() {
    let mut q = QuickCapture { enabled: true, key: TapKey::Shift, window_ms: 50 };
    q.clamp_window();
    assert_eq!(q.window_ms, WINDOW_MS_MIN);
    assert!(q.enabled);

    let mut q = QuickCapture { window_ms: 100000, ..QuickCapture::default() };
    q.clamp_window();
    assert_eq!(q.window_ms, WINDOW_MS_MAX);

    let mut q = QuickCapture { window_ms: 500, ..QuickCapture::default() };
    q.clamp_window();
    assert_eq!(q.window_ms, 500);
}

#[test]
fn quick_capture_hands_its_config_to_the_watcher() {
    let q = QuickCapture { enabled: true, key: TapKey::Command, window_ms: 500 };
    let c = q.config();
    assert_eq!(c.window_ms, 500);
    assert_eq!(c.key, TapKey::Command);
}

#[test]
fn the_gesture_names_the_key_twice() {
    let q = QuickCapture { enabled: true, key: TapKey::Alt, window_ms: 400 };
    assert_eq!(q.gesture(Platform::Mac), "Option Option");
    assert_eq!(q.gesture(Platform::Other), "Alt Alt");
}

#[test]
fn appearance_auto_follows_the_system() {
    assert!(Appearance::Auto.is_dark(true));
    assert!(!Appearance::Auto.is_dark(false));
    assert!(Appearance::Dark.is_dark(false));
    assert!(!Appearance::Light.is_dark(true));
    assert_eq!(Appearance::default(), Appearance::Auto);
}

#[test]
fn appearances_are_labelled_in_order() {
    let labels: Vec<&str> = Appearance::all().iter().map(|a| a.label()).collect();
    assert_eq!(labels, vec!["Auto", "Light", "Dark"]);
}

#[test]
fn an_empty_font_choice_is_the_built_in_font() {
    let f = FontChoice::default();
    assert!(f.is_default());
    assert_eq!(f.label(), "Built-in");
    let half = FontChoice { family: "Inter".into(), path: String::new(), index: 0 };
    assert!(half.is_default(), "no file means the built-in font");
    let real = FontChoice { family: "Inter".into(), path: "/f/Inter.ttf".into(), index: 0 };
    assert!(!real.is_default());
    assert_eq!(real.label(), "Inter");
}

#[test]
fn defaults_for_missing_settings() {
    assert_eq!(default_version(), 1);
    assert_eq!(default_tap_window_ms(), 400);
    assert!(default_true());
    assert_eq!(default_hotkey(), "Alt+Space");
}
