use flodo::cli::{
    add_todo, missing, parse, records, remove_all, render_text, set_done, Command, Record,
};
use flodo::model::Store;

fn args(s: &str) -> Vec<String> {
    s.split_whitespace().map(String::from).collect()
}

#[test]
fn no_arguments_launches_the_app() {
    assert_eq!(parse(&[]).unwrap(), Command::Gui);
}

#[test]
fn help_and_version_are_recognised() {
    for a in ["-h", "--help", "help"] {
        assert_eq!(parse(&args(a)).unwrap(), Command::Help, "{a}");
    }
    for a in ["-V", "--version", "version"] {
        assert_eq!(parse(&args(a)).unwrap(), Command::Version, "{a}");
    }
}

#[test]
fn list_accepts_its_flags_in_any_order() {
    assert_eq!(
        parse(&args("list")).unwrap(),
        Command::List { json: false, all: false, count: false }
    );
    assert_eq!(
        parse(&args("list --all --json")).unwrap(),
        Command::List { json: true, all: true, count: false }
    );
    assert_eq!(parse(&args("ls --count")).unwrap().clone(), {
        Command::List { json: false, all: false, count: true }
    });
}

#[test]
fn add_joins_bare_words_into_one_title() {
    assert_eq!(
        parse(&args("add buy oat milk")).unwrap(),
        Command::Add { title: "buy oat milk".into(), body: None, json: false }
    );
}

#[test]
fn add_takes_a_body_and_keeps_markdown_intact() {
    let a = vec![
        "add".to_string(),
        "Fix `login_test`".to_string(),
        "--body".to_string(),
        "Races on the **cookie**.".to_string(),
    ];
    assert_eq!(
        parse(&a).unwrap(),
        Command::Add {
            title: "Fix `login_test`".into(),
            body: Some("Races on the **cookie**.".into()),
            json: false
        }
    );
}

#[test]
fn add_without_text_is_an_error() {
    assert!(parse(&args("add")).is_err());
    assert!(parse(&args("add    ")).is_err());
}

#[test]
fn a_body_flag_with_no_value_is_an_error() {
    assert!(parse(&args("add thing --body")).is_err());
}

#[test]
fn done_undone_and_rm_parse_id_lists() {
    assert_eq!(
        parse(&args("done 1 2 3")).unwrap(),
        Command::SetDone { ids: vec![1, 2, 3], done: true }
    );
    assert_eq!(parse(&args("undone 7")).unwrap(), Command::SetDone { ids: vec![7], done: false });
    assert_eq!(parse(&args("rm 9")).unwrap(), Command::Remove { ids: vec![9] });
}

#[test]
fn bad_ids_and_unknown_commands_are_rejected() {
    assert!(parse(&args("done")).is_err());
    assert!(parse(&args("done abc")).is_err());
    assert!(parse(&args("rm -1")).is_err());
    assert!(parse(&args("frobnicate")).is_err());
    assert!(parse(&args("list --nope")).is_err());
}

#[test]
fn the_error_messages_say_what_was_wrong() {
    assert_eq!(parse(&args("done abc")).unwrap_err(), "\"abc\" is not a valid id");
    assert_eq!(parse(&args("frobnicate")).unwrap_err(), "unknown command \"frobnicate\"");
    assert_eq!(parse(&args("add")).unwrap_err(), "`add` needs some text");
    assert_eq!(parse(&args("list -x")).unwrap_err(), "unknown option for `list`: \"-x\"");
}

fn sample() -> Store {
    let mut s = Store::default();
    s.add("second");
    let done = s.add("first");
    s.toggle(done);
    s
}

#[test]
fn records_hide_completed_unless_asked() {
    let s = sample();
    assert_eq!(records(&s, false).len(), 1);
    assert_eq!(records(&s, true).len(), 2);
    assert_eq!(records(&s, false)[0].title, "second");
}

#[test]
fn text_output_is_valid_markdown_checkboxes() {
    let s = sample();
    let out = render_text(&records(&s, true));
    assert!(out.contains("- [x] first"), "{out}");
    assert!(out.contains("- [ ] second"), "{out}");
}

#[test]
fn text_output_indents_body_lines_under_their_todo() {
    let mut s = Store::default();
    let id = s.add("with body");
    s.get_mut(id).unwrap().body = "line one\n\nline two".into();
    let out = render_text(&records(&s, false));
    assert!(out.contains("      line one"), "{out}");
    assert!(out.contains("      line two"), "{out}");
}

#[test]
fn text_output_has_one_exact_line_per_record() {
    let r = Record {
        id: 42,
        title: "title".into(),
        body: "a\r\n  \nb".into(),
        done: false,
        created_at: 0,
        completed_at: None,
    };
    assert_eq!(render_text(&[r]), "- [ ] title  (42)\n      a\n      b\n");
}

#[test]
fn an_empty_list_says_so_rather_than_printing_nothing() {
    assert_eq!(render_text(&[]), "No to-dos.\n");
}

#[test]
fn missing_ids_are_reported_before_anything_is_changed() {
    let s = sample();
    let real = s.todos[0].id;
    assert!(missing(&s, &[real]).is_ok());
    let err = missing(&s, &[real, 424242]).unwrap_err();
    assert!(err.contains("424242"), "{err}");
    assert!(err.contains("nothing was changed"), "{err}");
}

#[test]
fn a_bad_id_leaves_the_list_untouched() {
    let mut s = sample();
    let real = s.todos[0].id;
    assert!(remove_all(&mut s, &[real, 7]).is_err());
    assert_eq!(s.todos.len(), 2);
    assert!(set_done(&mut s, &[real, 7], true).is_err());
    assert!(!s.todos[0].done);
}

#[test]
fn done_and_remove_apply_to_every_id() {
    let mut s = sample();
    let ids: Vec<u64> = s.todos.iter().map(|t| t.id).collect();
    set_done(&mut s, &ids, true).unwrap();
    assert!(s.todos.iter().all(|t| t.done && t.completed_at.is_some()));
    set_done(&mut s, &ids, false).unwrap();
    assert!(s.todos.iter().all(|t| !t.done && t.completed_at.is_none()));
    remove_all(&mut s, &ids).unwrap();
    assert!(s.todos.is_empty());
}

#[test]
fn add_with_a_body_records_both() {
    let mut s = Store::default();
    let id = add_todo(&mut s, "title", Some("**body**".to_string()));
    assert_eq!(s.todos[0].id, id);
    assert_eq!(s.todos[0].title, "title");
    assert_eq!(s.todos[0].body, "**body**");
    let rec = Record::from_todo(&s.todos[0]);
    assert_eq!(rec.body, "**body**");
    assert!(!rec.done);
}

#[test]
fn marking_a_to_do_already_in_that_state_keeps_its_timestamp() {
    let mut s = sample();
    let finished = s.todos[1].id;
    s.todos[1].completed_at = Some(7);
    set_done(&mut s, &[finished, finished], true).unwrap();
    assert_eq!(s.todos[1].completed_at, Some(7));
    let open = s.todos[0].id;
    set_done(&mut s, &[open, open], true).unwrap();
    assert!(s.todos[0].done && s.todos[0].completed_at.is_some());
}

#[test]
fn each_body_flag_takes_the_next_argument_and_the_last_one_wins() {
    let c = parse(&args("add --body --json x --json --body b2 w")).unwrap();
    assert_eq!(
        c,
        Command::Add { title: "x w".to_string(), body: Some("b2".to_string()), json: true }
    );
    assert!(parse(&args("add x --body")).is_err());
    assert!(parse(&args("new x --nope")).is_err());
    assert!(parse(&args("add --body only")).is_err());
}

#[test]
fn missing_names_each_unknown_id_once_in_order() {
    let s = sample();
    let real = s.todos[0].id;
    let err = missing(&s, &[77, real, 5]).unwrap_err();
    assert_eq!(err, "no to-do with id 77, 5 — nothing was changed");
}
