use flodo::model::{default_version, now_secs, Store, Todo, STORE_VERSION};

fn store_with(n: usize) -> Store {
    let mut s = Store::default();
    for i in 0..n {
        s.add(&format!("task {i}"));
    }
    s
}

#[test]
fn add_appends_and_ids_are_unique_and_increasing() {
    let s = store_with(50);
    assert_eq!(s.todos.len(), 50);
    assert_eq!(s.todos[0].title, "task 0");
    assert_eq!(s.todos[49].title, "task 49");
    for w in s.todos.windows(2) {
        assert!(w[1].id > w[0].id, "ids must strictly increase");
    }
}

#[test]
fn ids_stay_unique_after_reload_even_if_clock_went_backwards() {
    let mut s = Store::default();
    s.todos.push(Todo::new(u64::MAX / 2, "from the future"));
    let id = s.add("now");
    assert!(id > u64::MAX / 2);
}

#[test]
fn ids_come_from_the_clock_when_it_is_ahead() {
    let mut s = Store::default();
    let id = s.add_at("first", 1000, 7);
    assert_eq!(id, 1000 << 12);
    let again = s.add_at("second", 1000, 7);
    assert_eq!(again, (1000 << 12) + 1, "a stalled clock still gives a fresh id");
    assert_eq!(s.todos[1].created_at, 7);
    assert_eq!(s.next_id_after(0), (1000 << 12) + 2);
}

#[test]
fn toggle_sets_and_clears_completed_at() {
    let mut s = store_with(1);
    let id = s.todos[0].id;
    s.toggle(id);
    assert!(s.get(id).unwrap().done);
    assert!(s.get(id).unwrap().completed_at.is_some());
    s.toggle(id);
    assert!(!s.get(id).unwrap().done);
    assert!(s.get(id).unwrap().completed_at.is_none());
}

#[test]
fn toggling_at_a_known_time_records_it() {
    let mut s = store_with(1);
    let id = s.todos[0].id;
    s.toggle_at(id, 1234);
    assert_eq!(s.todos[0].completed_at, Some(1234));
    s.toggle_at(id, 99);
    assert_eq!(s.todos[0].completed_at, None);
}

#[test]
fn remove_then_restore_puts_it_back_where_it_was() {
    let mut s = store_with(5);
    let id = s.todos[2].id;
    let (ix, todo) = s.remove(id).unwrap();
    assert_eq!(ix, 2);
    assert_eq!(s.todos.len(), 4);
    s.restore(ix, todo);
    assert_eq!(s.todos.len(), 5);
    assert_eq!(s.todos[2].id, id);
}

#[test]
fn restore_past_the_end_clamps_instead_of_panicking() {
    let mut s = store_with(2);
    s.restore(99, Todo::new(1, "x"));
    assert_eq!(s.todos.len(), 3);
    assert_eq!(s.todos[2].title, "x");
}

#[test]
fn move_up_and_down_are_no_ops_at_the_boundaries() {
    let mut s = store_with(3);
    let (first, last) = (s.todos[0].id, s.todos[2].id);
    s.move_up(first);
    assert_eq!(s.todos[0].id, first);
    s.move_down(last);
    assert_eq!(s.todos[2].id, last);
}

#[test]
fn move_down_then_up_returns_to_start() {
    let mut s = store_with(3);
    let id = s.todos[0].id;
    s.move_down(id);
    assert_eq!(s.index_of(id), Some(1));
    s.move_up(id);
    assert_eq!(s.index_of(id), Some(0));
}

#[test]
fn move_to_clamps_and_reorders() {
    let mut s = store_with(4);
    let id = s.todos[0].id;
    s.move_to(id, 99);
    assert_eq!(s.index_of(id), Some(3));
    s.move_to(id, 0);
    assert_eq!(s.index_of(id), Some(0));
}

#[test]
fn move_to_keeps_the_others_in_order() {
    let mut s = store_with(4);
    let id = s.todos[3].id;
    s.move_to(id, 1);
    let names: Vec<&str> = s.todos.iter().map(|t| t.title.as_str()).collect();
    assert_eq!(names, vec!["task 0", "task 3", "task 1", "task 2"]);
}

#[test]
fn mutations_on_a_missing_id_do_nothing() {
    let mut s = store_with(2);
    let before = s.todos.clone();
    s.toggle(999);
    s.move_up(999);
    s.move_down(999);
    s.move_to(999, 0);
    assert!(s.remove(999).is_none());
    assert_eq!(s.todos, before);
    assert!(s.get(999).is_none());
    assert_eq!(s.index_of(999), None);
}

#[test]
fn visible_ids_respects_hide_completed() {
    let mut s = store_with(3);
    let mid = s.todos[1].id;
    s.toggle(mid);
    assert_eq!(s.visible_ids(false).len(), 3);
    let shown = s.visible_ids(true);
    assert_eq!(shown.len(), 2);
    assert!(!shown.contains(&mid));
    assert!(s.any_completed());
}

#[test]
fn a_fresh_list_has_nothing_completed() {
    let s = store_with(2);
    assert!(!s.any_completed());
    assert_eq!(s.version, STORE_VERSION);
    assert_eq!(default_version(), 1);
}

#[test]
fn has_body_ignores_whitespace_only_bodies() {
    let mut t = Todo::new(1, "x");
    assert!(!t.has_body());
    t.body = "   \n\t ".into();
    assert!(!t.has_body());
    t.body = "note".into();
    assert!(t.has_body());
}

#[test]
fn a_new_to_do_is_open_collapsed_and_stamped_now() {
    let before = now_secs();
    let t = Todo::new(5, "x");
    assert!(!t.done && !t.expanded && t.completed_at.is_none() && t.body.is_empty());
    assert!(t.created_at >= before && t.created_at <= now_secs());
    assert!(before > 1_600_000_000, "the clock reads seconds since 1970");
}

#[test]
fn get_mut_edits_in_place() {
    let mut s = store_with(2);
    let id = s.todos[1].id;
    s.get_mut(id).unwrap().title = "renamed".into();
    assert_eq!(s.todos[1].title, "renamed");
}

#[test]
fn checking_off_leaves_the_to_do_where_it_is() {
    let mut s = store_with(3);
    let before: Vec<u64> = s.todos.iter().map(|t| t.id).collect();
    s.toggle(before[1]);
    let after: Vec<u64> = s.todos.iter().map(|t| t.id).collect();
    assert_eq!(after, before);
    assert!(s.todos[1].done && !s.todos[0].done && !s.todos[2].done);
}
