use flodo::capture::Signal::{Down, Other, Up};
use flodo::capture::{
    flags_signal, mask_of, split, truncate, unsupported, Captured, Config, Detector, Signal, TapKey,
    Watcher, BODY_MAX, FLAG_ALTERNATE, FLAG_CAPS_LOCK, FLAG_SHIFT, HOLD_MAX_MS, NANOS_PER_MS, TITLE_MAX,
};
use flodo::platform::Platform;

const WINDOW: u64 = 400;

/// Drives the detector through `(signal, ms)` pairs and reports every moment
/// it fired.
fn run(script: &[(Signal, u64)]) -> Vec<u64> {
    let mut d = Detector::new(WINDOW);
    script
        .iter()
        .filter(|(s, ms)| d.feed(*s, *ms * NANOS_PER_MS))
        .map(|(_, ms)| *ms)
        .collect()
}

#[test]
fn two_clean_taps_inside_the_window_fire_once() {
    assert_eq!(run(&[(Down, 0), (Up, 40), (Down, 150), (Up, 190)]), vec![190]);
}

#[test]
fn a_single_tap_does_nothing() {
    assert!(run(&[(Down, 0), (Up, 40)]).is_empty());
}

#[test]
fn a_second_tap_after_the_window_does_not_fire() {
    assert!(run(&[(Down, 0), (Up, 40), (Down, 600), (Up, 640)]).is_empty());
}

#[test]
fn a_late_tap_starts_a_fresh_pair() {
    assert_eq!(
        run(&[(Down, 0), (Up, 40), (Down, 900), (Up, 940), (Down, 1000), (Up, 1040)]),
        vec![1040]
    );
}

#[test]
fn typing_a_capital_letter_is_not_a_tap() {
    assert!(run(&[
        (Down, 0),
        (Other, 10),
        (Up, 40),
        (Down, 150),
        (Other, 160),
        (Up, 190),
    ])
    .is_empty());
}

#[test]
fn a_keystroke_between_two_taps_breaks_the_pair() {
    assert!(run(&[(Down, 0), (Up, 40), (Other, 80), (Down, 150), (Up, 190)]).is_empty());
}

#[test]
fn holding_the_modifier_is_not_a_tap() {
    let held = HOLD_MAX_MS + 100;
    assert!(run(&[(Down, 0), (Up, held), (Down, held + 50), (Up, held + 90)]).is_empty());
}

#[test]
fn a_repeated_down_does_not_restart_the_hold_clock() {
    let held = HOLD_MAX_MS + 100;
    assert!(run(&[(Down, 0), (Down, 200), (Down, 400), (Up, held)]).is_empty());
}

#[test]
fn an_unmatched_up_is_ignored() {
    assert!(run(&[(Up, 0), (Up, 10)]).is_empty());
    assert_eq!(run(&[(Up, 0), (Down, 100), (Up, 140), (Down, 200), (Up, 240)]), vec![240]);
}

#[test]
fn taps_are_consumed_in_pairs() {
    assert_eq!(
        run(&[
            (Down, 0),
            (Up, 40),
            (Down, 150),
            (Up, 190),
            (Down, 300),
            (Up, 340),
            (Down, 450),
            (Up, 490),
        ]),
        vec![190, 490]
    );
}

#[test]
fn a_tap_exactly_at_the_window_edge_still_counts() {
    assert_eq!(run(&[(Down, 0), (Up, 40), (Down, 300), (Up, 440)]), vec![440]);
    assert!(run(&[(Down, 0), (Up, 40), (Down, 300), (Up, 441)]).is_empty());
}

#[test]
fn a_short_single_line_is_the_whole_title() {
    let c = split("  Book the dentist  ").unwrap();
    assert_eq!(c.title, "Book the dentist");
    assert_eq!(c.body, "");
}

#[test]
fn nothing_selected_is_not_a_capture() {
    assert_eq!(split(""), None);
    assert_eq!(split("   \n\t \r\n "), None);
}

#[test]
fn the_first_line_titles_it_and_the_rest_describes_it() {
    let c = split("Ship the release\nCheck the changelog\nTag it").unwrap();
    assert_eq!(c.title, "Ship the release");
    assert_eq!(c.body, "Check the changelog\nTag it");
}

#[test]
fn windows_and_old_mac_line_endings_are_normalised() {
    let c = split("Title\r\nBody one\rBody two").unwrap();
    assert_eq!(c.title, "Title");
    assert_eq!(c.body, "Body one\nBody two");
}

#[test]
fn whitespace_inside_the_title_is_collapsed() {
    let c = split("Ship\t\t the    release").unwrap();
    assert_eq!(c.title, "Ship the release");
}

#[test]
fn a_paragraph_keeps_every_word_it_cannot_fit_in_the_title() {
    let long = "word ".repeat(60);
    let c = split(&long).unwrap();
    assert!(c.title.chars().count() <= TITLE_MAX + 1, "{}", c.title);
    assert!(c.title.ends_with('…'));
    assert_eq!(c.body, long.trim());
}

#[test]
fn a_long_first_line_keeps_the_lines_that_followed_it() {
    let text = format!("{}\nthe rest", "word ".repeat(60));
    let c = split(&text).unwrap();
    assert!(c.title.ends_with('…'));
    assert!(c.body.starts_with("word word"));
    assert!(c.body.ends_with("the rest"));
}

#[test]
fn a_giant_selection_is_trimmed_to_a_sane_body() {
    let text = format!("Title\n{}", "x".repeat(BODY_MAX * 3));
    let c = split(&text).unwrap();
    assert_eq!(c.title, "Title");
    assert_eq!(c.body.chars().count(), BODY_MAX + 1);
    assert!(c.body.ends_with('…'));
}

#[test]
fn truncation_does_not_split_a_multi_byte_character() {
    let text = format!("Title\n{}", "é".repeat(BODY_MAX * 2));
    let c = split(&text).unwrap();
    assert_eq!(c.body.chars().count(), BODY_MAX + 1);
    let emoji = "🙂".repeat(TITLE_MAX * 2);
    let c = split(&emoji).unwrap();
    assert_eq!(c.title.chars().count(), TITLE_MAX + 1);
}

#[test]
fn truncate_keeps_short_text_and_marks_long_text() {
    assert_eq!(truncate("short", 10), "short");
    assert_eq!(truncate("exactly", 7), "exactly");
    assert_eq!(truncate("abcdef  gh", 8), "abcdef…");
}

#[test]
fn every_tap_key_has_a_distinct_label() {
    for platform in [Platform::Mac, Platform::Other] {
        let mut seen: Vec<&str> = TapKey::all().iter().map(|k| k.label(platform)).collect();
        seen.sort_unstable();
        seen.dedup();
        assert_eq!(seen.len(), TapKey::all().len());
    }
}

#[test]
fn tap_keys_are_named_for_the_platform() {
    assert_eq!(TapKey::Alt.label(Platform::Mac), "Option");
    assert_eq!(TapKey::Alt.label(Platform::Other), "Alt");
    assert_eq!(TapKey::Command.label(Platform::Other), "Super");
}

#[test]
fn each_tap_key_watches_its_own_flag() {
    assert_eq!(mask_of(TapKey::Shift), FLAG_SHIFT);
    assert_eq!(mask_of(TapKey::Alt), FLAG_ALTERNATE);
}

#[test]
fn flag_changes_read_as_down_up_or_other() {
    let m = FLAG_SHIFT;
    assert_eq!(flags_signal(0, FLAG_SHIFT, m), (Signal::Down, FLAG_SHIFT));
    assert_eq!(flags_signal(FLAG_SHIFT, 0, m), (Signal::Up, 0));
    assert_eq!(flags_signal(0, FLAG_CAPS_LOCK, m), (Signal::Other, FLAG_CAPS_LOCK));
    // Housekeeping bits outside the modifier set are ignored entirely.
    assert_eq!(flags_signal(0, 0x100, m), (Signal::Other, 0));
}

#[test]
fn quick_capture_without_a_backend_says_so() {
    let config = Config { key: TapKey::Shift, window_ms: 400 };
    let r = Watcher::start(config, unsupported::start(config));
    match r {
        Err(m) => assert_eq!(m, "Quick capture is macOS-only for now."),
        Ok(_) => panic!("no backend on this platform"),
    }
}

#[test]
fn a_started_backend_gives_a_watcher_that_keeps_the_latest_capture() {
    let config = Config { key: TapKey::Alt, window_ms: 300 };
    let (tx, rx) = std::sync::mpsc::channel();
    let w = Watcher::start(config, Ok((rx, ()))).unwrap();
    assert_eq!(w.config(), config);
    assert_eq!(w.poll(), None);
    let first = Captured { title: "one".into(), body: String::new() };
    let second = Captured { title: "two".into(), body: "b".into() };
    tx.send(first).unwrap();
    tx.send(second.clone()).unwrap();
    assert_eq!(w.poll(), Some(second));
    assert_eq!(w.poll(), None);
    let failed = Watcher::<()>::start(config, Err("needs permission".to_string()));
    assert_eq!(failed.err().unwrap(), "needs permission");
}

#[test]
fn a_capture_is_a_tidy_title_over_a_clean_body() {
    let c = split("  \t a\t\tb \u{a0} c \r\n\r\n line one\r\nline two  \r").unwrap();
    assert_eq!(c.title, "a b c");
    assert_eq!(c.body, "line one\nline two");
    let c = split(&format!("{}\r\n  more \r\n", "ab\t ".repeat(50))).unwrap();
    assert!(!c.title.contains('\n') && !c.title.contains('\r') && !c.title.contains("  "));
    assert_eq!(c.title, c.title.trim());
    assert!(!c.body.contains('\r'));
    assert_eq!(c.body, c.body.trim());
}

#[test]
fn only_a_clean_release_fires() {
    let mut d = Detector::new(WINDOW);
    assert!(!d.feed(Down, 0));
    assert!(!d.feed(Up, 10));
    assert!(!d.feed(Down, 50));
    assert!(!d.feed(Other, 55));
    assert!(!d.feed(Up, 60));
}

#[test]
fn a_hold_or_gap_a_nanosecond_too_long_does_not_count() {
    let ns = |ms: u64| ms * NANOS_PER_MS;
    let mut d = Detector::new(WINDOW);
    assert!(!d.feed(Down, 0));
    assert!(!d.feed(Up, ns(HOLD_MAX_MS) + 1));
    assert!(!d.feed(Down, ns(600)));
    assert!(!d.feed(Up, ns(640)));
    let mut d = Detector::new(WINDOW);
    assert!(!d.feed(Down, 0));
    assert!(!d.feed(Up, ns(HOLD_MAX_MS)));
    assert!(!d.feed(Down, ns(HOLD_MAX_MS + 100)));
    assert!(!d.feed(Up, ns(HOLD_MAX_MS + WINDOW) + 1));
    let mut d = Detector::new(WINDOW);
    assert!(!d.feed(Down, 0));
    assert!(!d.feed(Up, ns(HOLD_MAX_MS)));
    assert!(!d.feed(Down, ns(HOLD_MAX_MS + 100)));
    assert!(d.feed(Up, ns(HOLD_MAX_MS + WINDOW)));
}
