use flodo::store::{quarantined, startup_notice, LoadNotice, SETTINGS_FILE, TODOS_FILE};

#[test]
fn a_quarantine_notice_names_the_file() {
    let n = quarantined("to-do list");
    assert_eq!(
        n,
        LoadNotice::Quarantined("Couldn't read your to-do list; kept a backup copy.".into())
    );
}

#[test]
fn the_startup_notice_prefers_the_to_do_list() {
    let t = quarantined("to-do list");
    let s = quarantined("settings");
    assert_eq!(
        startup_notice(&t, &s).as_deref(),
        Some("Couldn't read your to-do list; kept a backup copy.")
    );
    assert_eq!(
        startup_notice(&LoadNotice::Loaded, &s).as_deref(),
        Some("Couldn't read your settings; kept a backup copy.")
    );
    assert_eq!(startup_notice(&LoadNotice::Fresh, &LoadNotice::Loaded), None);
}

#[test]
fn the_files_have_stable_names() {
    assert_eq!(TODOS_FILE, "todos.json");
    assert_eq!(SETTINGS_FILE, "settings.json");
}
