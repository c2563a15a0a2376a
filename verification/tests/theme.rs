use flodo::theme::Accent;

#[test]
fn accents_are_labelled_in_order() {
    let labels: Vec<&str> = Accent::all().iter().map(|a| a.label()).collect();
    assert_eq!(
        labels,
        vec!["Pink", "Purple", "Blue", "Teal", "Green", "Amber", "Red", "Graphite"]
    );
    assert_eq!(Accent::default(), Accent::Pink);
}

#[test]
fn each_accent_has_a_light_and_a_dark_shade() {
    assert_eq!(Accent::Pink.rgb(false), 0xd6336c);
    assert_eq!(Accent::Pink.rgb(true), 0xf783ac);
    assert_eq!(Accent::Graphite.rgb(false), 0x495057);
    for a in Accent::all() {
        assert_ne!(a.rgb(false), a.rgb(true), "{a:?}");
    }
}

#[test]
fn a_colour_splits_into_its_channels() {
    assert_eq!(Accent::channels(0xd6336c), (0xd6, 0x33, 0x6c));
    assert_eq!(Accent::channels(0x000001), (0, 0, 1));
}
