use flodo::app::{
    adopt_defaults_from, demo_of, done_count, empty_state_text, excerpt, progress_label,
    shortcuts, Demo, Field, Session, Shortcut,
};
use flodo::fonts::FamilyInfo;
use flodo::model::{Store, Todo};
use flodo::platform::Platform;
use flodo::settings::FontChoice;

fn store_of(titles: &[&str]) -> Store {
    let mut s = Store::default();
    for t in titles {
        s.add(t);
    }
    s
}

fn session_of(titles: &[&str]) -> Session {
    Session::new(store_of(titles))
}

fn titles(s: &Session) -> Vec<String> {
    s.store.todos.iter().map(|t| t.title.clone()).collect()
}

#[test]
fn an_excerpt_keeps_short_titles_whole() {
    assert_eq!(excerpt("Buy oat milk", 24), "Buy oat milk");
    assert_eq!(excerpt("  spaced   out\nnote ", 24), "spaced out note");
}

#[test]
fn an_excerpt_truncates_without_splitting_a_char() {
    let long = "🙂".repeat(40);
    let out = excerpt(&long, 10);
    assert_eq!(out.chars().count(), 10, "9 kept plus the ellipsis");
    assert!(out.ends_with('…'));
}

#[test]
fn an_excerpt_drops_trailing_space_before_the_ellipsis() {
    assert_eq!(excerpt("abcd efgh", 6), "abcd…");
    assert_eq!(excerpt("abcdefgh", 0), "…");
}

#[test]
fn every_shortcut_is_spelled_for_this_platform() {
    let list = shortcuts(Platform::Other, "Alt+Space");
    assert!(list.iter().any(|(k, _)| k == "Alt+Space"));
    assert!(list.iter().any(|(k, _)| k == &format!("{}+N", "Ctrl")));
    assert!(!list.iter().any(|(k, _)| k.contains("Cmd")), "no Cmd off macOS");
}

#[test]
fn the_mac_shortcut_list_says_cmd() {
    let list = shortcuts(Platform::Mac, "Alt+Space");
    assert_eq!(list.len(), 11);
    assert_eq!(list[1], ("Cmd+Enter".to_string(), "Add or edit the description"));
    assert_eq!(list[10], ("Alt+Space".to_string(), "Summon Flodo from anywhere"));
    assert!(!list.iter().any(|(k, _)| k.contains("Ctrl")));
}

#[test]
fn committing_a_title_trims_it() {
    let mut s = session_of(&["old"]);
    let id = s.store.todos[0].id;
    s.start_edit(id, Field::Title);
    s.editing.as_mut().unwrap().draft = "  new title \n".to_string();
    s.commit_edit();
    assert!(s.editing.is_none());
    assert_eq!(s.store.todos[0].title, "new title");
    assert!(s.touched);
}

#[test]
fn an_emptied_title_keeps_the_previous_text() {
    let mut s = session_of(&["keep me"]);
    let id = s.store.todos[0].id;
    s.start_edit(id, Field::Title);
    s.editing.as_mut().unwrap().draft = "   ".to_string();
    s.commit_edit();
    assert_eq!(s.store.todos[0].title, "keep me");
    assert!(!s.touched, "nothing changed, so nothing to save");
}

#[test]
fn an_emptied_body_collapses_its_row() {
    let mut s = session_of(&["x"]);
    let id = s.store.todos[0].id;
    s.open_body(id);
    assert!(s.store.todos[0].expanded);
    s.editing.as_mut().unwrap().draft = "note".to_string();
    s.commit_edit();
    assert_eq!(s.store.todos[0].body, "note");
    assert!(s.store.todos[0].expanded);
    s.start_edit(id, Field::Body);
    s.editing.as_mut().unwrap().draft = " \n ".to_string();
    s.commit_edit();
    assert!(!s.store.todos[0].expanded);
}

#[test]
fn cancelling_an_unwritten_body_collapses_it() {
    let mut s = session_of(&["x"]);
    let id = s.store.todos[0].id;
    s.open_body(id);
    s.touched = false;
    s.cancel_edit();
    assert!(s.editing.is_none());
    assert!(!s.store.todos[0].expanded);
    assert!(s.touched);
}

#[test]
fn cancelling_a_title_edit_writes_nothing() {
    let mut s = session_of(&["x"]);
    let id = s.store.todos[0].id;
    s.start_edit(id, Field::Title);
    s.editing.as_mut().unwrap().draft = "changed".to_string();
    s.cancel_edit();
    assert_eq!(s.store.todos[0].title, "x");
    assert!(!s.touched);
}

#[test]
fn editing_a_missing_to_do_does_nothing() {
    let mut s = session_of(&["x"]);
    s.start_edit(999, Field::Title);
    assert!(s.editing.is_none());
}

#[test]
fn delete_then_undo_restores_the_list() {
    let mut s = session_of(&["a", "b", "c"]);
    let id = s.store.todos[1].id;
    let before: Vec<u64> = s.store.todos.iter().map(|t| t.id).collect();
    s.delete(id);
    assert_eq!(titles(&s), vec!["a", "c"]);
    let toast = s.toast.as_ref().unwrap();
    assert_eq!(toast.message, "Deleted “b”");
    assert!(toast.undoable);
    assert_eq!(s.undo.as_ref().unwrap().0, 1);
    s.undo_delete();
    let after: Vec<u64> = s.store.todos.iter().map(|t| t.id).collect();
    assert_eq!(after, before);
    assert!(s.toast.is_none());
    assert!(s.undo.is_none());
}

#[test]
fn deleting_the_to_do_being_edited_ends_the_edit() {
    let mut s = session_of(&["a"]);
    let id = s.store.todos[0].id;
    s.start_edit(id, Field::Title);
    s.delete(id);
    assert!(s.editing.is_none());
    assert!(s.store.todos.is_empty());
}

#[test]
fn a_long_title_is_shortened_in_the_delete_notice() {
    let mut s = session_of(&["Renew the car registration before it lapses"]);
    let id = s.store.todos[0].id;
    s.delete(id);
    assert_eq!(s.toast.unwrap().message, "Deleted “Renew the car registrat…”");
}

#[test]
fn the_composer_adds_trimmed_titles_and_ignores_blank_ones() {
    let mut s = session_of(&[]);
    s.composer = "   ".to_string();
    assert_eq!(s.add_from_composer(), None);
    assert_eq!(s.composer, "   ");
    assert!(s.store.todos.is_empty());
    s.composer = "  Buy milk ".to_string();
    let id = s.add_from_composer().unwrap();
    assert_eq!(s.store.todos[0].id, id);
    assert_eq!(s.store.todos[0].title, "Buy milk");
    assert_eq!(s.composer, "");
    assert!(s.composer_focus);
}

#[test]
fn describe_from_the_composer_adds_and_opens_the_body() {
    let mut s = session_of(&[]);
    s.composer = "Write the plan".to_string();
    s.describe();
    assert_eq!(s.store.todos.len(), 1);
    let id = s.store.todos[0].id;
    assert!(s.store.todos[0].expanded);
    let e = s.editing.as_ref().unwrap();
    assert_eq!((e.id, e.field), (id, Field::Body));
    assert!(!s.composer_focus);
}

#[test]
fn describe_from_a_title_moves_into_its_body() {
    let mut s = session_of(&["a"]);
    let id = s.store.todos[0].id;
    s.start_edit(id, Field::Title);
    s.editing.as_mut().unwrap().draft = "renamed".to_string();
    s.describe();
    assert_eq!(s.store.todos[0].title, "renamed");
    assert_eq!(s.editing.as_ref().unwrap().field, Field::Body);
}

#[test]
fn describe_from_a_body_returns_to_the_composer() {
    let mut s = session_of(&["a"]);
    let id = s.store.todos[0].id;
    s.open_body(id);
    s.editing.as_mut().unwrap().draft = "the note".to_string();
    s.describe();
    assert!(s.editing.is_none());
    assert!(s.composer_focus);
    assert_eq!(s.store.todos[0].body, "the note");
}

#[test]
fn escape_leaves_the_innermost_thing_first() {
    let mut s = session_of(&["a"]);
    let id = s.store.todos[0].id;
    s.show_settings = true;
    s.start_edit(id, Field::Title);
    s.press(Shortcut::Escape);
    assert!(s.editing.is_none());
    assert!(s.show_settings);
    s.press(Shortcut::Escape);
    assert!(!s.show_settings);
    s.delete(id);
    s.press(Shortcut::Escape);
    assert!(s.toast.is_none());
}

#[test]
fn describe_is_ignored_while_the_settings_sheet_is_open() {
    let mut s = session_of(&[]);
    s.composer = "x".to_string();
    s.press(Shortcut::Settings);
    s.press(Shortcut::Describe);
    assert!(s.store.todos.is_empty());
    s.press(Shortcut::Composer);
    assert!(!s.show_settings && s.composer_focus);
}

#[test]
fn arrow_shortcuts_move_the_to_do_being_edited() {
    let mut s = session_of(&["a", "b", "c"]);
    let id = s.store.todos[0].id;
    s.press(Shortcut::MoveDown);
    assert_eq!(titles(&s), vec!["a", "b", "c"], "nothing is being edited");
    s.start_edit(id, Field::Title);
    s.press(Shortcut::MoveDown);
    assert_eq!(titles(&s), vec!["b", "a", "c"]);
    s.press(Shortcut::MoveUp);
    assert_eq!(titles(&s), vec!["a", "b", "c"]);
    s.press(Shortcut::Delete);
    assert_eq!(titles(&s), vec!["b", "c"]);
    s.press(Shortcut::Undo);
    assert_eq!(titles(&s), vec!["a", "b", "c"]);
}

#[test]
fn with_nothing_unsaved_the_disk_wins() {
    let mut s = session_of(&["mine"]);
    let id = s.store.todos[0].id;
    s.start_edit(id, Field::Title);
    let mut disk = Store::default();
    disk.todos.push(Todo::new(id + 1, "theirs"));
    s.merge_external(disk, false);
    assert_eq!(titles(&s), vec!["theirs"]);
    assert!(s.editing.is_none(), "the edited to-do is gone");
}

#[test]
fn with_unsaved_changes_new_to_dos_from_disk_are_adopted_on_top() {
    let mut s = session_of(&["mine"]);
    let mine = s.store.todos[0].id;
    let mut disk = Store::default();
    disk.todos.push(Todo::new(mine, "stale copy"));
    disk.todos.push(Todo::new(mine + 10, "added elsewhere"));
    disk.todos.push(Todo::new(mine + 20, "and another"));
    s.merge_external(disk, true);
    assert_eq!(titles(&s), vec!["added elsewhere", "and another", "mine"]);
}

#[test]
fn demo_names_pick_their_scenario() {
    assert_eq!(demo_of("long"), Demo::Long);
    assert_eq!(demo_of("editing"), Demo::Editing);
    assert_eq!(demo_of("whatever"), Demo::Basic);
}

#[test]
fn the_long_demo_has_thirty_rows_and_every_fourth_is_done() {
    let mut s = session_of(&["gone"]);
    s.seed_demo("long");
    assert_eq!(s.store.todos.len(), 30);
    assert_eq!(s.store.todos[0].title, "Recurring thought number 1");
    assert_eq!(s.store.todos[29].title, "Recurring thought number 30");
    assert!(s.store.todos[3].done && !s.store.todos[4].done);
    assert!(s.store.todos[3].completed_at.is_some());
}

#[test]
fn the_toast_and_editing_demos_open_what_they_show() {
    let mut s = session_of(&[]);
    s.seed_demo("toast");
    assert_eq!(s.store.todos.len(), 3);
    assert_eq!(s.toast.as_ref().unwrap().message, "Deleted “Book the dentist”");
    assert_eq!(s.undo.as_ref().unwrap().0, 1);
    let mut s = session_of(&[]);
    s.seed_demo("editing");
    let e = s.editing.as_ref().unwrap();
    assert_eq!(e.id, s.store.todos[1].id);
    assert_eq!(e.draft, "Ship the **auth** refactor");
    let mut s = session_of(&[]);
    s.seed_demo("shortcuts");
    assert!(s.show_settings && s.show_shortcuts && s.store.todos.is_empty());
}

fn family(name: &str, mono: bool) -> FamilyInfo {
    FamilyInfo {
        name: name.to_string(),
        path: format!("/fonts/{name}.ttf"),
        index: 0,
        monospaced: mono,
    }
}

#[test]
fn a_first_run_adopts_default_fonts_once() {
    let list = vec![family("Inter", false), family("Menlo", true)];
    let mut font = FontChoice::default();
    let mut mono = FontChoice::default();
    let mut chosen = false;
    assert!(adopt_defaults_from(&mut font, &mut mono, &mut chosen, &list));
    assert_eq!(font.family, "Inter");
    assert_eq!(mono.family, "Menlo");
    assert_eq!(mono.path, "/fonts/Menlo.ttf");
    assert!(chosen);

    let mut font = FontChoice::default();
    assert!(!adopt_defaults_from(&mut font, &mut mono, &mut chosen, &list));
    assert!(font.is_default(), "a later Built-in is the user's choice");
}

#[test]
fn the_chevron_opens_an_empty_body_for_writing() {
    let mut s = session_of(&["a"]);
    let id = s.store.todos[0].id;
    s.toggle_expand(id);
    assert!(s.store.todos[0].expanded);
    assert_eq!(s.editing.as_ref().unwrap().field, Field::Body);
    s.set_draft("written".to_string());
    s.commit_edit();
    s.toggle_expand(id);
    assert!(!s.store.todos[0].expanded);
    assert!(s.editing.is_none(), "a row with a body just closes");
}

#[test]
fn clicking_another_row_commits_the_current_edit() {
    let mut s = session_of(&["a", "b"]);
    let (a, b) = (s.store.todos[0].id, s.store.todos[1].id);
    s.start_edit(a, Field::Title);
    s.set_draft("A".to_string());
    s.switch_edit(b, Field::Title);
    assert_eq!(s.store.todos[0].title, "A");
    let e = s.editing.as_ref().unwrap();
    assert_eq!((e.id, e.draft.as_str()), (b, "b"));
}

#[test]
fn dropping_a_row_moves_it_among_the_shown_ones() {
    let mut s = session_of(&["a", "b", "c", "d"]);
    let ids: Vec<u64> = s.store.todos.iter().map(|t| t.id).collect();
    s.toggle_done(ids[1]);
    let shown = s.store.visible_ids(true);
    assert_eq!(shown, vec![ids[0], ids[2], ids[3]]);
    s.reorder(ids[0], &shown, 2);
    assert_eq!(titles(&s), vec!["b", "c", "d", "a"]);
    s.touched = false;
    s.reorder(ids[0], &shown, 99);
    assert_eq!(titles(&s), vec!["b", "c", "d", "a"]);
}

#[test]
fn checking_off_marks_the_list_changed() {
    let mut s = session_of(&["a"]);
    let id = s.store.todos[0].id;
    s.toggle_done(id);
    assert!(s.store.todos[0].done && s.touched);
    assert_eq!(done_count(&s.store), 1);
}

#[test]
fn the_progress_ring_says_how_far_along_the_list_is() {
    assert_eq!(progress_label(0, 0), "Nothing on the list");
    assert_eq!(progress_label(3, 3), "All 3 done");
    assert_eq!(progress_label(2, 10), "2 of 10 done");
}

#[test]
fn an_empty_list_teaches_the_keys() {
    let (head, lines) = empty_state_text(true, Platform::Mac);
    assert_eq!(head, "Nothing yet");
    assert_eq!(lines, vec!["Type above and press Enter", "Cmd+Enter adds a description"]);
    let (head, lines) = empty_state_text(false, Platform::Other);
    assert_eq!(head, "All done");
    assert_eq!(lines, vec!["Ctrl+E brings the completed ones back"]);
}

#[test]
fn a_new_to_do_lands_directly_below_the_composer() {
    let mut s = session_of(&["older", "oldest"]);
    s.composer = "newest".to_string();
    let id = s.add_from_composer().unwrap();
    assert_eq!(titles(&s), vec!["newest", "older", "oldest"]);
    assert_eq!(s.store.todos[0].id, id);
    s.composer = "even newer".to_string();
    s.describe();
    assert_eq!(titles(&s), vec!["even newer", "newest", "older", "oldest"]);
    assert_eq!(s.editing.as_ref().unwrap().id, s.store.todos[0].id);
}
