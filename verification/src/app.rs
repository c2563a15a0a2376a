//! The window's state behind the drawing: which text is being edited, what
//! the composer holds, what undo can bring back, and how a list changed on
//! disk by another process is taken in. Also the words the app shows about
//! itself: the shortcut list and the short form of a title.

use vstd::prelude::*;

use crate::fonts::{default_family, default_mono, default_proportional, FamilyInfo};
use crate::model::{
    first_index, id_ceiling, ids_unique, lemma_first_index, lowered, raised, Store, Todo,
};
use crate::platform::{modifier_name, Platform};
use crate::settings::FontChoice;
use crate::text::{
    chars_of, collapse, collapsed, decimal, has_ink, same_str, shorten, shortened, string_of,
    trim, trimmed,
};

verus! {

/// What each shortcut does, in the order the settings sheet lists them.
pub open spec fn shortcut_actions() -> Seq<Seq<char>> {
    seq![
        "Add the to-do, keep typing"@,
        "Add or edit the description"@,
        "Jump to the composer"@,
        "Show / hide completed"@,
        "Pin / unpin from the top"@,
        "Settings"@,
        "Undo the last delete"@,
        "Move the to-do you're editing"@,
        "Delete it"@,
        "Stop editing, or close this"@,
        "Summon Flodo from anywhere"@,
    ]
}

/// A key pressed with the platform's modifier.
pub open spec fn with_modifier(p: Platform, key: Seq<char>) -> Seq<char> {
    modifier_name(p) + "+"@ + key
}

/// The keys, spelled for the platform, matching [`shortcut_actions`].
pub open spec fn shortcut_keys(p: Platform, hotkey: Seq<char>) -> Seq<Seq<char>> {
    seq![
        "Enter"@,
        with_modifier(p, "Enter"@),
        with_modifier(p, "N"@),
        with_modifier(p, "E"@),
        with_modifier(p, "P"@),
        with_modifier(p, ","@),
        with_modifier(p, "Z"@),
        with_modifier(p, "Up / Down"@),
        with_modifier(p, "Backspace"@),
        "Esc"@,
        hotkey,
    ]
}

fn modified(p: Platform, key: &str) -> (s: String)
    ensures
        s@ == with_modifier(p, key@),
{
    let mut v = chars_of(p.modifier());
    crate::text::extend_str(&mut v, "+");
    crate::text::extend_str(&mut v, key);
    string_of(v.as_slice())
}

/// The shortcut list in the settings sheet: the only place in the app that
/// answers "what else can I press?".
pub fn shortcuts(platform: Platform, hotkey: &str) -> (r: Vec<(String, &'static str)>)
    ensures
        r@.len() == 11,
        forall|i: int|
            0 <= i < 11 ==> (#[trigger] r@[i]).0@ == shortcut_keys(platform, hotkey@)[i]
                && r@[i].1@ == shortcut_actions()[i],
{
    let m = |k: &str| -> (s: String)
        ensures
            s@ == with_modifier(platform, k@),
        { modified(platform, k) };
    let r = vec![
        ("Enter".to_owned(), "Add the to-do, keep typing"),
        (m("Enter"), "Add or edit the description"),
        (m("N"), "Jump to the composer"),
        (m("E"), "Show / hide completed"),
        (m("P"), "Pin / unpin from the top"),
        (m(","), "Settings"),
        (m("Z"), "Undo the last delete"),
        (m("Up / Down"), "Move the to-do you're editing"),
        (m("Backspace"), "Delete it"),
        ("Esc".to_owned(), "Stop editing, or close this"),
        (hotkey.to_owned(), "Summon Flodo from anywhere"),
    ];
    r
}

/// Enough of a title to recognise it: whitespace folded, and past `max`
/// characters cut to `max - 1` plus an ellipsis.
pub open spec fn excerpt_spec(title: Seq<char>, max: nat) -> Seq<char> {
    let flat = collapse(title);
    if flat.len() <= max {
        flat
    } else {
        shortened(flat, if max > 0 {
            max - 1
        } else {
            0
        })
    }
}

/// Enough of a title to recognise it, without stretching a notice past the
/// window edge.
pub fn excerpt(title: &str, max: usize) -> (r: String)
    ensures
        r@ == excerpt_spec(title@, max as nat),
{
    let v = chars_of(title);
    let flat = collapsed(v.as_slice());
    if flat.len() <= max {
        return string_of(flat.as_slice());
    }
    let keep = if max > 0 {
        max - 1
    } else {
        0
    };
    let short = shorten(flat.as_slice(), keep);
    string_of(short.as_slice())
}

} // verus!

verus! {

// ---------------------------------------------------------------- editing

/// Which text of a to-do is being edited.
#[derive(Debug, Clone, Copy, PartialEq, Eq, Structural)]
pub enum Field {
    Title,
    Body,
}

/// An edit in progress. Whether a row shows rendered markdown or its raw
/// source is decided by this, not by which widget has focus.
#[derive(Debug)]
pub struct Editing {
    pub id: u64,
    pub field: Field,
    pub draft: String,
    pub original: String,
    pub focus_requested: bool,
}

/// The notice at the foot of the window; `undoable` when it offers undo.
#[derive(Debug)]
pub struct Toast {
    pub message: String,
    pub undoable: bool,
}

/// Everything the window decides about the list between two frames.
#[derive(Debug)]
pub struct Session {
    pub store: Store,
    pub editing: Option<Editing>,
    pub composer: String,
    pub composer_focus: bool,
    pub show_settings: bool,
    pub show_shortcuts: bool,
    pub undo: Option<(usize, Todo)>,
    pub toast: Option<Toast>,
    /// Set by every change to the list; the app clears it once it has
    /// scheduled a save.
    pub touched: bool,
}

/// The text of a to-do that an edit of `field` works on.
pub open spec fn field_text(t: Todo, field: Field) -> Seq<char> {
    match field {
        Field::Title => t.title@,
        Field::Body => t.body@,
    }
}

/// The title an edit leaves: the draft trimmed, or the previous title when
/// the draft holds nothing but whitespace (an empty title would leave a row
/// nobody can click).
pub open spec fn committed_title(draft: Seq<char>, original: Seq<char>) -> Seq<char> {
    if trim(draft).len() == 0 {
        original
    } else {
        trim(draft)
    }
}

/// `after` is `before` with the edit written into it. A body left without
/// ink also collapses the row.
pub open spec fn edit_applied(before: Todo, after: Todo, e: Editing) -> bool {
    match e.field {
        Field::Title => after == Todo { title: after.title, ..before } && after.title@
            == committed_title(e.draft@, e.original@),
        Field::Body => after == Todo {
            body: after.body,
            expanded: before.expanded && has_ink(e.draft@),
            ..before
        } && after.body@ == e.draft@,
    }
}

/// Whether committing the edit changes the text it works on.
pub open spec fn edit_changes(before: Todo, e: Editing) -> bool {
    match e.field {
        Field::Title => before.title@ != committed_title(e.draft@, e.original@),
        Field::Body => before.body@ != e.draft@,
    }
}

/// The message shown once a to-do is deleted.
pub open spec fn deleted_message(title: Seq<char>) -> Seq<char> {
    "Deleted \u{201c}"@ + excerpt_spec(title, 24) + "\u{201d}"@
}

impl Session {
    /// A session over a list, with nothing being edited.
    pub fn new(store: Store) -> (s: Session)
        ensures
            s.store == store,
            s.editing is None,
            s.composer@ == Seq::<char>::empty(),
            !s.composer_focus,
            !s.show_settings,
            !s.show_shortcuts,
            s.undo is None,
            s.toast is None,
            !s.touched,
    {
        Session {
            store,
            editing: None,
            composer: String::new(),
            composer_focus: false,
            show_settings: false,
            show_shortcuts: false,
            undo: None,
            toast: None,
            touched: false,
        }
    }

    /// Everything but the list, the edit and the change flag is as in `other`.
    pub open spec fn same_surroundings(&self, other: &Session) -> bool {
        &&& self.composer == other.composer
        &&& self.composer_focus == other.composer_focus
        &&& self.show_settings == other.show_settings
        &&& self.show_shortcuts == other.show_shortcuts
        &&& self.undo == other.undo
        &&& self.toast == other.toast
    }

    /// Starts editing a field of a to-do, with the draft holding its current
    /// text. Nothing happens when no to-do has the id.
    pub fn start_edit(&mut self, id: u64, field: Field)
        ensures
            final(self).store == old(self).store,
            final(self).touched == old(self).touched,
            final(self).same_surroundings(old(self)),
            match first_index(old(self).store.todos@, id) {
                Some(i) => final(self).editing matches Some(e) && e.id == id && e.field == field
                    && e.draft@ == field_text(old(self).store.todos@[i], field) && e.original@
                    == field_text(old(self).store.todos@[i], field) && !e.focus_requested,
                None => final(self).editing == old(self).editing,
            },
    {
        let i = match self.store.index_of(id) {
            Some(i) => i,
            None => return ,
        };
        let original = match field {
            Field::Title => self.store.todos[i].title.clone(),
            Field::Body => self.store.todos[i].body.clone(),
        };
        self.editing = Some(
            Editing { id, field, draft: original.clone(), original, focus_requested: false },
        );
    }

    /// What committing the edit does: the edit ends, and its to-do takes the
    /// edited text. The list is marked changed only when the text changed.
    pub open spec fn committed(b: Session, a: Session) -> bool {
        &&& a.editing is None
        &&& a.same_surroundings(&b)
        &&& a.store.version == b.store.version
        &&& a.store.extra == b.store.extra
        &&& match b.editing {
            Some(e) => match first_index(b.store.todos@, e.id) {
                Some(i) => a.store.todos@ == b.store.todos@.update(i, a.store.todos@[i])
                    && edit_applied(b.store.todos@[i], a.store.todos@[i], e) && a.touched == (
                b.touched || edit_changes(b.store.todos@[i], e)),
                None => a.store.todos@ == b.store.todos@ && a.touched == b.touched,
            },
            None => a.store.todos@ == b.store.todos@ && a.touched == b.touched,
        }
    }

    /// Writes the edit in progress into its to-do and ends it.
    pub fn commit_edit(&mut self)
        ensures
            Session::committed(*old(self), *final(self)),
    {
        let e = match self.editing.take() {
            Some(e) => e,
            None => return ,
        };
        let i = match self.store.index_of(e.id) {
            Some(i) => i,
            None => return ,
        };
        let ghost before = self.store.todos@[i as int];
        let mut t = self.store.todos.remove(i);
        let changed = match e.field {
            Field::Title => {
                let d = chars_of(e.draft.as_str());
                let tr = trimmed(d.as_slice());
                let v = if tr.len() == 0 {
                    e.original.clone()
                } else {
                    string_of(tr.as_slice())
                };
                let changed = !same_str(t.title.as_str(), v.as_str());
                t.title = v;
                changed
            },
            Field::Body => {
                let changed = !same_str(t.body.as_str(), e.draft.as_str());
                t.body = e.draft.clone();
                if !t.has_body() {
                    t.expanded = false;
                }
                changed
            },
        };
        let ghost after = t;
        self.store.todos.insert(i, t);
        if changed {
            self.touched = true;
        }
        proof {
            assert(self.store.todos@ =~= old(self).store.todos@.update(i as int, after));
        }
    }

    /// What cancelling does: the edit ends unwritten. Leaving a body that
    /// was never written also collapses its row, which would otherwise stay
    /// open around nothing.
    pub open spec fn cancelled(b: Session, a: Session) -> bool {
        let todos = b.store.todos@;
        &&& a.editing is None
        &&& a.same_surroundings(&b)
        &&& a.store.version == b.store.version
        &&& a.store.extra == b.store.extra
        &&& match Session::collapsed_by_cancel(todos, b.editing) {
            Some(i) => a.store.todos@ == todos.update(i, Todo { expanded: false, ..todos[i] })
                && a.touched,
            None => a.store.todos@ == todos && a.touched == b.touched,
        }
    }

    /// Ends the edit in progress without writing it.
    pub fn cancel_edit(&mut self)
        ensures
            Session::cancelled(*old(self), *final(self)),
    {
        let e = match self.editing.take() {
            Some(e) => e,
            None => return ,
        };
        if e.field == Field::Body {
            if let Some(i) = self.store.index_of(e.id) {
                if !self.store.todos[i].has_body() && self.store.todos[i].expanded {
                    let mut t = self.store.todos.remove(i);
                    t.expanded = false;
                    self.store.todos.insert(i, t);
                    self.touched = true;
                    proof {
                        let todos = old(self).store.todos@;
                        assert(self.store.todos@ =~= todos.update(
                            i as int,
                            Todo { expanded: false, ..todos[i as int] },
                        ));
                    }
                }
            }
        }
    }

    /// The row a cancel collapses: that of a body edit whose to-do is open
    /// with no ink in its body.
    pub open spec fn collapsed_by_cancel(todos: Seq<Todo>, editing: Option<Editing>) -> Option<
        int,
    > {
        match editing {
            Some(e) => if e.field == Field::Body {
                match first_index(todos, e.id) {
                    Some(i) => if !has_ink(todos[i].body@) && todos[i].expanded {
                        Some(i)
                    } else {
                        None
                    },
                    None => None,
                }
            } else {
                None
            },
            None => None,
        }
    }
}

impl Session {
    /// What deleting a to-do does: it leaves the list, undo holds it and its
    /// place, a notice names it, and an edit of it ends. Nothing happens to
    /// the list when no to-do has the id.
    pub open spec fn deleted(b: Session, a: Session, id: u64) -> bool {
        &&& a.editing == match b.editing {
            Some(e) => if e.id == id {
                None
            } else {
                b.editing
            },
            None => None,
        }
        &&& a.composer == b.composer
        &&& a.composer_focus == b.composer_focus
        &&& a.show_settings == b.show_settings
        &&& a.show_shortcuts == b.show_shortcuts
        &&& a.store.version == b.store.version
        &&& a.store.extra == b.store.extra
        &&& match first_index(b.store.todos@, id) {
            Some(i) => {
                &&& a.store.todos@ == b.store.todos@.remove(i)
                &&& a.undo == Some((i as usize, b.store.todos@[i]))
                &&& a.toast matches Some(t) && t.undoable && t.message@ == deleted_message(
                    b.store.todos@[i].title@,
                )
                &&& a.touched
            },
            None => {
                &&& a.store.todos@ == b.store.todos@
                &&& a.undo == b.undo
                &&& a.toast == b.toast
                &&& a.touched == b.touched
            },
        }
    }

    /// Deletes a to-do, keeping it so the deletion can be undone.
    pub fn delete(&mut self, id: u64)
        ensures
            Session::deleted(*old(self), *final(self), id),
    {
        let editing_this = match &self.editing {
            Some(e) => e.id == id,
            None => false,
        };
        if editing_this {
            self.editing = None;
        }
        if let Some((ix, todo)) = self.store.remove(id) {
            let mut msg = chars_of("Deleted \u{201c}");
            let short = excerpt(todo.title.as_str(), 24);
            crate::text::extend_str(&mut msg, short.as_str());
            crate::text::extend_str(&mut msg, "\u{201d}");
            self.toast = Some(Toast { message: string_of(msg.as_slice()), undoable: true });
            self.undo = Some((ix, todo));
            self.touched = true;
        }
    }

    /// What undoing does: the last deleted to-do goes back where it was (or
    /// at the end, if the list has since become shorter) and its notice
    /// goes away. Nothing happens when there is nothing to undo.
    pub open spec fn undone(b: Session, a: Session) -> bool {
        &&& a.undo is None
        &&& a.editing == b.editing
        &&& a.composer == b.composer
        &&& a.composer_focus == b.composer_focus
        &&& a.show_settings == b.show_settings
        &&& a.show_shortcuts == b.show_shortcuts
        &&& a.store.version == b.store.version
        &&& a.store.extra == b.store.extra
        &&& match b.undo {
            Some((ix, t)) => {
                let n = b.store.todos@.len();
                &&& a.store.todos@ == b.store.todos@.insert(
                    if ix <= n {
                        ix as int
                    } else {
                        n as int
                    },
                    t,
                )
                &&& a.toast is None
                &&& a.touched
            },
            None => {
                &&& a.store.todos@ == b.store.todos@
                &&& a.toast == b.toast
                &&& a.touched == b.touched
            },
        }
    }

    /// Puts back the last deleted to-do, if there is one.
    pub fn undo_delete(&mut self)
        ensures
            Session::undone(*old(self), *final(self)),
    {
        let (ix, todo) = match self.undo.take() {
            Some(u) => u,
            None => return ,
        };
        self.store.restore(ix, todo);
        self.touched = true;
        self.toast = None;
    }

    /// What adding from the composer does once it holds some text: a fresh
    /// to-do with the trimmed text lands on the line directly below the
    /// composer, at the top of the list, under a new id, and the composer
    /// empties and keeps focus for the next one.
    pub open spec fn added(b: Session, a: Session, id: u64) -> bool {
        &&& a.store.todos@.len() == b.store.todos@.len() + 1
        &&& a.store.todos@ == seq![a.store.todos@[0]] + b.store.todos@
        &&& exists|now: i64| a.store.todos@[0].is_fresh(id, trim(b.composer@), now)
        &&& id >= id_ceiling(b.store.todos@)
        &&& a.store.version == b.store.version
        &&& a.store.extra == b.store.extra
        &&& a.composer@ == Seq::<char>::empty()
        &&& a.composer_focus
        &&& a.touched
        &&& a.editing == b.editing
        &&& a.show_settings == b.show_settings
        &&& a.show_shortcuts == b.show_shortcuts
        &&& a.undo == b.undo
        &&& a.toast == b.toast
    }

    /// Adds the composer's text as a new to-do and returns its id; a composer
    /// holding only whitespace adds nothing.
    pub fn add_from_composer(&mut self) -> (r: Option<u64>)
        requires
            has_ink(old(self).composer@) ==> forall|j: int|
                0 <= j < old(self).store.todos@.len() ==> (#[trigger] old(
                    self,
                ).store.todos@[j]).id < u64::MAX,
        ensures
            trim(old(self).composer@).len() == 0 ==> r is None && *final(self) == *old(self),
            trim(old(self).composer@).len() > 0 ==> (r matches Some(id) && Session::added(
                *old(self),
                *final(self),
                id,
            )),
    {
        let cs = chars_of(self.composer.as_str());
        let tr = trimmed(cs.as_slice());
        if tr.len() == 0 {
            return None;
        }
        proof {
            crate::text::lemma_trim_empty_iff(old(self).composer@);
        }
        let title = string_of(tr.as_slice());
        let id = self.store.add(title.as_str());
        // The composer sits at the top, so the new to-do goes directly below it.
        let ghost added = self.store.todos@;
        match self.store.todos.pop() {
            Some(t) => self.store.todos.insert(0, t),
            None => {},
        }
        proof {
            assert(added.drop_last() == old(self).store.todos@);
            assert(self.store.todos@ =~= seq![added.last()] + old(self).store.todos@);
        }
        self.composer = String::new();
        self.composer_focus = true;
        self.touched = true;
        Some(id)
    }
}

/// Rewriting a to-do in place without changing its id leaves every lookup
/// by id where it was.
proof fn lemma_first_index_same_ids(todos: Seq<Todo>, i: int, t: Todo, id: u64)
    requires
        0 <= i < todos.len(),
        t.id == todos[i].id,
    ensures
        first_index(todos.update(i, t), id) == first_index(todos, id),
{
    let u = todos.update(i, t);
    lemma_first_index(todos, id);
    lemma_first_index(u, id);
    assert forall|j: int| 0 <= j < todos.len() implies (#[trigger] u[j]).id == todos[j].id by {}
    if let Some(k) = first_index(todos, id) {
        assert(u[k].id == id);
        crate::model::lemma_first_index_unique(u, id, k);
    } else if let Some(k) = first_index(u, id) {
        assert(todos[k].id == id);
    }
}

impl Session {
    /// What opening a body does: the row expands (when the to-do exists),
    /// the list is marked changed, the composer lets go of focus, and an edit
    /// of the body begins.
    pub open spec fn opened(b: Session, a: Session, id: u64) -> bool {
        let todos = b.store.todos@;
        &&& a.store.version == b.store.version
        &&& a.store.extra == b.store.extra
        &&& a.touched
        &&& !a.composer_focus
        &&& a.composer == b.composer
        &&& a.show_settings == b.show_settings
        &&& a.show_shortcuts == b.show_shortcuts
        &&& a.undo == b.undo
        &&& a.toast == b.toast
        &&& match first_index(todos, id) {
            Some(i) => {
                &&& a.store.todos@ == todos.update(i, Todo { expanded: true, ..todos[i] })
                &&& a.editing matches Some(e) && e.id == id && e.field == Field::Body && e.draft@
                    == todos[i].body@ && e.original@ == todos[i].body@ && !e.focus_requested
            },
            None => a.store.todos@ == todos && a.editing == b.editing,
        }
    }

    /// Expands a to-do and puts the cursor in its description.
    pub fn open_body(&mut self, id: u64)
        ensures
            Session::opened(*old(self), *final(self), id),
    {
        if let Some(i) = self.store.index_of(id) {
            let mut t = self.store.todos.remove(i);
            t.expanded = true;
            self.store.todos.insert(i, t);
            proof {
                let todos = old(self).store.todos@;
                assert(self.store.todos@ =~= todos.update(
                    i as int,
                    Todo { expanded: true, ..todos[i as int] },
                ));
                lemma_first_index_same_ids(
                    todos,
                    i as int,
                    Todo { expanded: true, ..todos[i as int] },
                    id,
                );
            }
        }
        self.touched = true;
        self.composer_focus = false;
        self.start_edit(id, Field::Body);
    }

    /// What the describe key does, from wherever the cursor is: from a title
    /// it commits and moves down into that to-do's description; from a
    /// description it commits and hands focus back to the composer; from the
    /// composer it adds the to-do and opens its description.
    pub open spec fn described(b: Session, a: Session) -> bool {
        match b.editing {
            Some(e) => if e.field == Field::Title {
                exists|m: Session| #[trigger]
                    Session::committed(b, m) && Session::opened(m, a, e.id)
            } else {
                exists|m: Session| #[trigger]
                    Session::committed(b, m) && a == Session { composer_focus: true, ..m }
            },
            None => if trim(b.composer@).len() == 0 {
                a == b
            } else {
                exists|m: Session, id: u64| #[trigger]
                    Session::added(b, m, id) && Session::opened(m, a, id)
            },
        }
    }

    /// The describe key: adding a to-do with a note is typing all the way
    /// through, with no Enter in between.
    pub fn describe(&mut self)
        requires
            old(self).editing is None && has_ink(old(self).composer@) ==> forall|j: int|
                0 <= j < old(self).store.todos@.len() ==> (#[trigger] old(
                    self,
                ).store.todos@[j]).id < u64::MAX,
        ensures
            Session::described(*old(self), *final(self)),
    {
        let current = match &self.editing {
            Some(e) => Some((e.id, e.field)),
            None => None,
        };
        match current {
            Some((id, Field::Title)) => {
                self.commit_edit();
                let ghost m = *self;
                self.open_body(id);
                assert(Session::committed(*old(self), m) && Session::opened(m, *self, id));
            },
            Some((_, Field::Body)) => {
                self.commit_edit();
                let ghost m = *self;
                self.composer_focus = true;
                assert(Session::committed(*old(self), m) && *self == Session {
                    composer_focus: true,
                    ..m
                });
            },
            None => {
                if let Some(id) = self.add_from_composer() {
                    let ghost m = *self;
                    self.open_body(id);
                    assert(Session::added(*old(self), m, id) && Session::opened(m, *self, id));
                }
            },
        }
    }
}

// ---------------------------------------------------------------- changes from elsewhere

/// The to-dos of `todos`, in order, whose ids no to-do of `known` has.
pub open spec fn unknown_to(todos: Seq<Todo>, known: Seq<Todo>) -> Seq<Todo>
    decreases todos.len(),
{
    if todos.len() == 0 {
        Seq::empty()
    } else {
        let rest = unknown_to(todos.drop_first(), known);
        if first_index(known, todos[0].id) is Some {
            rest
        } else {
            seq![todos[0]] + rest
        }
    }
}

/// The ids of a list, in order.
fn ids_of(todos: &Vec<Todo>) -> (r: Vec<u64>)
    ensures
        r@ == todos@.map_values(|t: Todo| t.id),
{
    let mut r: Vec<u64> = Vec::new();
    let mut k: usize = 0;
    while k < todos.len()
        invariant
            k <= todos@.len(),
            r@ == todos@.take(k as int).map_values(|t: Todo| t.id),
        decreases todos@.len() - k,
    {
        r.push(todos[k].id);
        k += 1;
        assert(r@ =~= todos@.take(k as int).map_values(|t: Todo| t.id));
    }
    assert(todos@.take(todos@.len() as int) =~= todos@);
    r
}

/// Whether `id` is among `ids`.
fn has_id(ids: &Vec<u64>, id: u64) -> (r: bool)
    ensures
        r == ids@.contains(id),
{
    let mut k: usize = 0;
    while k < ids.len()
        invariant
            k <= ids@.len(),
            forall|j: int| 0 <= j < k ==> ids@[j] != id,
        decreases ids@.len() - k,
    {
        if ids[k] == id {
            return true;
        }
        k += 1;
    }
    false
}

/// An id is among a list's ids exactly when a lookup by it finds a to-do.
proof fn lemma_ids_contain(todos: Seq<Todo>, id: u64)
    ensures
        todos.map_values(|t: Todo| t.id).contains(id) == first_index(todos, id) is Some,
{
    let ids = todos.map_values(|t: Todo| t.id);
    lemma_first_index(todos, id);
    if let Some(k) = first_index(todos, id) {
        assert(ids[k] == id);
    }
    if ids.contains(id) {
        let k = choose|k: int| 0 <= k < ids.len() && ids[k] == id;
        assert(todos[k].id == id);
    }
}

impl Session {
    /// What taking in the list as another process wrote it does. With nothing
    /// unsaved here, the list on disk is the truth, and an edit of a to-do
    /// that is gone ends. With unsaved changes here, the local list wins, but
    /// every to-do on disk with an id the local list lacks joins it at the
    /// top, in the order it has on disk, so nothing added elsewhere is lost.
    pub open spec fn merged(b: Session, a: Session, disk: Store, unsaved: bool) -> bool {
        &&& a.same_surroundings(&b)
        &&& a.touched == b.touched
        &&& if unsaved {
            &&& a.store.todos@ == unknown_to(disk.todos@, b.store.todos@) + b.store.todos@
            &&& a.store.version == b.store.version
            &&& a.store.extra == b.store.extra
            &&& a.editing == b.editing
        } else {
            &&& a.store == disk
            &&& a.editing == match b.editing {
                Some(e) => if first_index(disk.todos@, e.id) is Some {
                    b.editing
                } else {
                    None
                },
                None => None,
            }
        }
    }

    /// Takes in the list as another process (the command line, a file-sync
    /// client) wrote it; `unsaved` tells whether this window holds changes
    /// it has not written yet.
    pub fn merge_external(&mut self, disk: Store, unsaved: bool)
        ensures
            Session::merged(*old(self), *final(self), disk, unsaved),
    {
        if !unsaved {
            let gone = match &self.editing {
                Some(e) => disk.index_of(e.id).is_none(),
                None => false,
            };
            self.store = disk;
            if gone {
                self.editing = None;
            }
            return ;
        }
        let ghost local = self.store.todos@;
        let ghost d = disk.todos@;
        let known = ids_of(&self.store.todos);
        let mut rest = disk.todos;
        proof {
            assert(d.skip(d.len() as int) =~= Seq::<Todo>::empty());
            assert(rest@.take(rest@.len() as int) =~= rest@);
            assert(unknown_to(Seq::<Todo>::empty(), local) + local =~= local);
        }
        while rest.len() > 0
            invariant
                rest@.len() <= d.len(),
                rest@ == d.take(rest@.len() as int),
                known@ == local.map_values(|t: Todo| t.id),
                self.store.todos@ == unknown_to(d.skip(rest@.len() as int), local) + local,
                self.store.version == old(self).store.version,
                self.store.extra == old(self).store.extra,
                self.editing == old(self).editing,
                self.touched == old(self).touched,
                self.same_surroundings(old(self)),
            decreases rest@.len(),
        {
            let ghost m = rest@.len() as int;
            let t = match rest.pop() {
                Some(t) => t,
                None => return ,
            };
            proof {
                assert(t == d[m - 1]);
                assert(rest@ =~= d.take(m - 1));
                let s = d.skip(m - 1);
                assert(s.drop_first() =~= d.skip(m));
                assert(s[0] == d[m - 1]);
                lemma_ids_contain(local, t.id);
            }
            if !has_id(&known, t.id) {
                let ghost before = self.store.todos@;
                self.store.todos.insert(0, t);
                proof {
                    assert(self.store.todos@ =~= seq![t] + before);
                    assert(seq![t] + (unknown_to(d.skip(m), local) + local) =~= (seq![t]
                        + unknown_to(d.skip(m), local)) + local);
                }
            }
        }
    }
}

// ---------------------------------------------------------------- shortcuts

/// A shortcut the window handles. All but `Escape` are pressed together
/// with the platform's modifier.
#[derive(Debug, Clone, Copy, PartialEq, Eq, Structural)]
pub enum Shortcut {
    /// Esc: leave whatever is open, innermost first.
    Escape,
    /// N: jump to the composer.
    Composer,
    /// Enter: add or edit the description.
    Describe,
    /// Comma: open or close the settings sheet.
    Settings,
    /// Z: undo the last delete.
    Undo,
    /// Up: move the to-do being edited up.
    MoveUp,
    /// Down: move the to-do being edited down.
    MoveDown,
    /// Backspace: delete the to-do being edited.
    Delete,
}

impl Session {
    /// What a shortcut does.
    pub open spec fn pressed(b: Session, a: Session, key: Shortcut) -> bool {
        match key {
            Shortcut::Escape => if b.editing is Some {
                Session::cancelled(b, a)
            } else if b.show_settings {
                a == Session { show_settings: false, ..b }
            } else {
                a == Session { toast: None, ..b }
            },
            Shortcut::Composer => a == Session { composer_focus: true, show_settings: false, ..b },
            Shortcut::Describe => if b.show_settings {
                a == b
            } else {
                Session::described(b, a)
            },
            Shortcut::Settings => a == Session { show_settings: !b.show_settings, ..b },
            Shortcut::Undo => Session::undone(b, a),
            Shortcut::MoveUp => match b.editing {
                Some(e) => a.store.todos@ == raised(b.store.todos@, e.id) && a == Session {
                    store: a.store,
                    touched: true,
                    ..b
                } && a.store.version == b.store.version && a.store.extra == b.store.extra,
                None => a == b,
            },
            Shortcut::MoveDown => match b.editing {
                Some(e) => a.store.todos@ == lowered(b.store.todos@, e.id) && a == Session {
                    store: a.store,
                    touched: true,
                    ..b
                } && a.store.version == b.store.version && a.store.extra == b.store.extra,
                None => a == b,
            },
            Shortcut::Delete => match b.editing {
                Some(e) => Session::deleted(b, a, e.id),
                None => a == b,
            },
        }
    }

    /// Handles a shortcut.
    pub fn press(&mut self, key: Shortcut)
        requires
            key == Shortcut::Describe && !old(self).show_settings && old(self).editing is None
                && has_ink(old(self).composer@) ==> forall|j: int|
                0 <= j < old(self).store.todos@.len() ==> (#[trigger] old(
                    self,
                ).store.todos@[j]).id < u64::MAX,
        ensures
            Session::pressed(*old(self), *final(self), key),
    {
        let editing_id = match &self.editing {
            Some(e) => Some(e.id),
            None => None,
        };
        match key {
            Shortcut::Escape => {
                if editing_id.is_some() {
                    self.cancel_edit();
                } else if self.show_settings {
                    self.show_settings = false;
                } else {
                    self.toast = None;
                }
            },
            Shortcut::Composer => {
                self.composer_focus = true;
                self.show_settings = false;
            },
            Shortcut::Describe => {
                if !self.show_settings {
                    self.describe();
                }
            },
            Shortcut::Settings => {
                self.show_settings = !self.show_settings;
            },
            Shortcut::Undo => {
                self.undo_delete();
            },
            Shortcut::MoveUp => {
                if let Some(id) = editing_id {
                    self.store.move_up(id);
                    self.touched = true;
                }
            },
            Shortcut::MoveDown => {
                if let Some(id) = editing_id {
                    self.store.move_down(id);
                    self.touched = true;
                }
            },
            Shortcut::Delete => {
                if let Some(id) = editing_id {
                    self.delete(id);
                }
            },
        }
    }
}

// ---------------------------------------------------------------- row actions

impl Session {
    /// What checking a row off does: its to-do is toggled (stamped at some
    /// moment `now`) and the list is marked changed.
    pub open spec fn checked_off(b: Session, a: Session, id: u64) -> bool {
        &&& exists|now: i64| a.store.todos@ == Store::toggled_list(b.store.todos@, id, now)
        &&& a.store.version == b.store.version
        &&& a.store.extra == b.store.extra
        &&& a.touched
        &&& a.editing == b.editing
        &&& a.same_surroundings(&b)
    }

    /// The checkbox of a row was clicked.
    pub fn toggle_done(&mut self, id: u64)
        ensures
            Session::checked_off(*old(self), *final(self), id),
    {
        self.store.toggle(id);
        self.touched = true;
    }

    /// What the chevron of a row does: the row opens or closes, and opening
    /// one with no body goes straight into writing it, since otherwise the
    /// chevron would reveal nothing at all.
    pub open spec fn chevron_pressed(b: Session, a: Session, id: u64) -> bool {
        let todos = b.store.todos@;
        match first_index(todos, id) {
            Some(i) => {
                &&& a.store.todos@ == todos.update(
                    i,
                    Todo { expanded: !todos[i].expanded, ..todos[i] },
                )
                &&& a.store.version == b.store.version
                &&& a.store.extra == b.store.extra
                &&& a.touched
                &&& a.same_surroundings(&b)
                &&& if has_ink(todos[i].body@) {
                    a.editing == b.editing
                } else {
                    a.editing matches Some(e) && e.id == id && e.field == Field::Body && e.draft@
                        == todos[i].body@ && e.original@ == todos[i].body@ && !e.focus_requested
                }
            },
            None => a == Session { touched: true, ..b },
        }
    }

    /// The chevron of a row was clicked.
    pub fn toggle_expand(&mut self, id: u64)
        ensures
            Session::chevron_pressed(*old(self), *final(self), id),
    {
        if let Some(i) = self.store.index_of(id) {
            let empty = !self.store.todos[i].has_body();
            let mut t = self.store.todos.remove(i);
            t.expanded = !t.expanded;
            self.store.todos.insert(i, t);
            self.touched = true;
            proof {
                let todos = old(self).store.todos@;
                let u = Todo { expanded: !todos[i as int].expanded, ..todos[i as int] };
                assert(self.store.todos@ =~= todos.update(i as int, u));
                lemma_first_index_same_ids(todos, i as int, u, id);
            }
            if empty {
                self.start_edit(id, Field::Body);
            }
        } else {
            self.touched = true;
        }
    }

    /// What clicking a row's text does: any edit in progress is committed,
    /// then an edit of the clicked text begins.
    pub open spec fn switched_edit(b: Session, a: Session, id: u64, field: Field) -> bool {
        exists|m: Session| #[trigger]
            Session::committed(b, m) && a.store == m.store && a.touched == m.touched
                && a.same_surroundings(&m) && match first_index(m.store.todos@, id) {
                Some(i) => a.editing matches Some(e) && e.id == id && e.field == field && e.draft@
                    == field_text(m.store.todos@[i], field) && e.original@ == field_text(
                    m.store.todos@[i],
                    field,
                ) && !e.focus_requested,
                None => a.editing is None,
            }
    }

    /// The text of a row was clicked.
    pub fn switch_edit(&mut self, id: u64, field: Field)
        ensures
            Session::switched_edit(*old(self), *final(self), id, field),
    {
        self.commit_edit();
        let ghost m = *self;
        self.start_edit(id, field);
        assert(Session::committed(*old(self), m));
    }

    /// What dropping a dragged row does: the to-do moves to where the row it
    /// was dropped on sits in the whole list (`to` counts shown rows only;
    /// past the end it stays put).
    pub open spec fn dropped(b: Session, a: Session, id: u64, shown: Seq<u64>, to: usize) -> bool {
        let target = if to < shown.len() {
            shown[to as int]
        } else {
            id
        };
        let todos = b.store.todos@;
        &&& a.editing == b.editing
        &&& a.same_surroundings(&b)
        &&& a.store.version == b.store.version
        &&& a.store.extra == b.store.extra
        &&& match first_index(todos, target) {
            Some(ix) => {
                &&& a.touched
                &&& match first_index(todos, id) {
                    Some(from) => {
                        let dest = if ix < todos.len() - 1 {
                            ix
                        } else {
                            todos.len() - 1
                        };
                        a.store.todos@ == crate::model::moved(todos, from, dest)
                    },
                    None => a.store.todos@ == todos,
                }
            },
            None => a.store.todos@ == todos && a.touched == b.touched,
        }
    }

    /// A row was dragged onto the position of the `to`-th shown row.
    pub fn reorder(&mut self, id: u64, shown: &[u64], to: usize)
        ensures
            Session::dropped(*old(self), *final(self), id, shown@, to),
    {
        let target = if to < shown.len() {
            shown[to]
        } else {
            id
        };
        if let Some(ix) = self.store.index_of(target) {
            self.store.move_to(id, ix);
            self.touched = true;
        }
    }

    /// Keeps what was typed into the field being edited.
    pub fn set_draft(&mut self, draft: String)
        ensures
            final(self).store == old(self).store,
            final(self).touched == old(self).touched,
            final(self).same_surroundings(old(self)),
            match old(self).editing {
                Some(e) => final(self).editing == Some(Editing { draft, ..e }),
                None => final(self).editing is None,
            },
    {
        if let Some(e) = self.editing.as_mut() {
            e.draft = draft;
        }
    }
}

// ---------------------------------------------------------------- status words

/// What the progress ring says when hovered.
pub open spec fn progress_text(done: nat, total: nat) -> Seq<char> {
    if total == 0 {
        "Nothing on the list"@
    } else if done == total {
        "All "@ + decimal(total) + " done"@
    } else {
        decimal(done) + " of "@ + decimal(total) + " done"@
    }
}

/// How much of the list is behind you, in words.
pub fn progress_label(done: usize, total: usize) -> (s: String)
    ensures
        s@ == progress_text(done as nat, total as nat),
{
    if total == 0 {
        return "Nothing on the list".to_owned();
    }
    let mut v: Vec<char> = Vec::new();
    if done == total {
        crate::text::extend_str(&mut v, "All ");
        let t = crate::text::decimal_of(total as u64);
        crate::text::extend(&mut v, t.as_slice());
        crate::text::extend_str(&mut v, " done");
    } else {
        let d = crate::text::decimal_of(done as u64);
        crate::text::extend(&mut v, d.as_slice());
        crate::text::extend_str(&mut v, " of ");
        let t = crate::text::decimal_of(total as u64);
        crate::text::extend(&mut v, t.as_slice());
        crate::text::extend_str(&mut v, " done");
    }
    string_of(v.as_slice())
}

/// How many to-dos are done.
pub fn done_count(store: &Store) -> (n: usize)
    ensures
        n == store.todos@.filter(|t: Todo| t.done).len(),
{
    let mut n: usize = 0;
    let mut i: usize = 0;
    while i < store.todos.len()
        invariant
            i <= store.todos@.len(),
            n == store.todos@.take(i as int).filter(|t: Todo| t.done).len(),
            n <= i,
        decreases store.todos@.len() - i,
    {
        proof {
            let p = store.todos@.take(i + 1);
            assert(p.drop_last() =~= store.todos@.take(i as int));
            store.todos@.take(i as int).lemma_filter_push(store.todos@[i as int], |t: Todo| t.done);
            assert(store.todos@.take(i as int).push(store.todos@[i as int]) =~= p);
        }
        if store.todos[i].done {
            n += 1;
        }
        i += 1;
    }
    proof {
        assert(store.todos@.take(store.todos@.len() as int) =~= store.todos@);
    }
    n
}

/// What an empty list says: a heading and one or two hints. A list that was
/// never filled teaches the two keys worth knowing; one with everything
/// hidden says how to get the finished ones back.
pub fn empty_state_text(fresh: bool, platform: Platform) -> (r: (&'static str, Vec<String>))
    ensures
        fresh ==> r.0@ == "Nothing yet"@ && r.1@.len() == 2 && r.1@[0]@
            == "Type above and press Enter"@ && r.1@[1]@ == modifier_name(platform)
            + "+Enter adds a description"@,
        !fresh ==> r.0@ == "All done"@ && r.1@.len() == 1 && r.1@[0]@ == modifier_name(platform)
            + "+E brings the completed ones back"@,
{
    let mut hint = chars_of(platform.modifier());
    if fresh {
        crate::text::extend_str(&mut hint, "+Enter adds a description");
        let lines = vec!["Type above and press Enter".to_owned(), string_of(hint.as_slice())];
        ("Nothing yet", lines)
    } else {
        crate::text::extend_str(&mut hint, "+E brings the completed ones back");
        let lines = vec![string_of(hint.as_slice())];
        ("All done", lines)
    }
}

// ---------------------------------------------------------------- laws

/// Undo takes back a delete: deleting a to-do and then undoing gives back
/// the list exactly as it was.
pub proof fn law_undo_restores_a_delete(before: Session, deleted: Session, undone: Session, id: u64)
    requires
        first_index(before.store.todos@, id) is Some,
        Session::deleted(before, deleted, id),
        Session::undone(deleted, undone),
    ensures
        undone.store.todos@ == before.store.todos@,
        undone.undo is None,
        undone.toast is None,
{
    let todos = before.store.todos@;
    crate::model::law_restore_undoes_remove(todos, id);
    crate::model::lemma_first_index(todos, id);
    assert(todos.len() == before.store.todos.len());
    let i = first_index(todos, id)->0;
    assert((i as usize) as int == i);
}

/// A title edit never blanks a title: whatever the draft, a title that had
/// ink still has ink once the edit is committed.
pub proof fn law_committed_title_never_blank(draft: Seq<char>, original: Seq<char>)
    requires
        has_ink(original),
    ensures
        has_ink(committed_title(draft, original)),
{
    crate::text::lemma_trim_empty_iff(draft);
    if trim(draft).len() > 0 {
        let t = trim(draft);
        assert(!crate::text::is_space(t[0]));
    }
}

/// Taking in another process's list while holding unsaved changes loses
/// nothing: every local to-do stays, in its order, below the newcomers; and
/// every to-do on disk is either among them or shares its id with a local
/// one. The newcomers bring no id the local list already has.
pub proof fn law_merge_loses_nothing(disk: Seq<Todo>, local: Seq<Todo>)
    ensures
        ({
            let fresh = unknown_to(disk, local);
            let merged = fresh + local;
            &&& merged.subrange(fresh.len() as int, merged.len() as int) == local
            &&& forall|i: int|
                0 <= i < disk.len() ==> first_index(local, (#[trigger] disk[i]).id) is Some
                    || fresh.contains(disk[i])
            &&& forall|k: int|
                0 <= k < fresh.len() ==> first_index(local, (#[trigger] fresh[k]).id) is None
        }),
    decreases disk.len(),
{
    let fresh = unknown_to(disk, local);
    assert((fresh + local).subrange(fresh.len() as int, (fresh + local).len() as int) =~= local);
    if disk.len() > 0 {
        let tail = disk.drop_first();
        law_merge_loses_nothing(tail, local);
        let rest = unknown_to(tail, local);
        assert forall|i: int|
            0 <= i < disk.len() implies first_index(local, (#[trigger] disk[i]).id) is Some
            || fresh.contains(disk[i]) by {
            if i > 0 {
                assert(disk[i] == tail[i - 1]);
                if rest.contains(tail[i - 1]) {
                    let k = choose|k: int| 0 <= k < rest.len() && rest[k] == tail[i - 1];
                    if first_index(local, disk[0].id) is None {
                        assert(fresh[k + 1] == rest[k]);
                    }
                }
            } else if first_index(local, disk[0].id) is None {
                assert(fresh[0] == disk[0]);
            }
        }
        assert forall|k: int| 0 <= k < fresh.len() implies first_index(
            local,
            (#[trigger] fresh[k]).id,
        ) is None by {
            if first_index(local, disk[0].id) is None && k > 0 {
                assert(fresh[k] == rest[k - 1]);
            }
        }
    }
}

} // verus!

verus! {

// ---------------------------------------------------------------- first-run fonts

/// The font choice that remembers a family.
pub open spec fn choice_of(f: FamilyInfo) -> FontChoice {
    FontChoice { family: f.name, path: f.path, index: f.index }
}

/// What a first run picks for a font slot still on the built-in font: the
/// default family of its kind, when there is one.
pub open spec fn adopted(current: FontChoice, avail: Seq<FamilyInfo>, mono: bool) -> FontChoice {
    if current.spec_is_default() {
        match default_family(avail, mono) {
            Some(f) => choice_of(f),
            None => current,
        }
    } else {
        current
    }
}

/// On the first run that has the system's families to hand, fills each font
/// slot still on the built-in font with a sensible default, once: after
/// that, `fonts_chosen` is set and a later "Built-in" is the user's choice.
/// Returns whether the settings changed and need saving.
pub fn adopt_defaults_from(
    font: &mut FontChoice,
    mono_font: &mut FontChoice,
    fonts_chosen: &mut bool,
    list: &[FamilyInfo],
) -> (touched: bool)
    ensures
        *old(fonts_chosen) ==> !touched && *final(font) == *old(font) && *final(mono_font) == *old(
            mono_font,
        ) && *final(fonts_chosen),
        !*old(fonts_chosen) ==> touched && *final(fonts_chosen) && *final(font) == adopted(
            *old(font),
            list@,
            false,
        ) && *final(mono_font) == adopted(*old(mono_font), list@, true),
{
    if *fonts_chosen {
        return false;
    }
    if font.is_default() {
        if let Some(f) = default_proportional(list) {
            *font = FontChoice { family: f.name, path: f.path, index: f.index };
        }
    }
    if mono_font.is_default() {
        if let Some(f) = default_mono(list) {
            *mono_font = FontChoice { family: f.name, path: f.path, index: f.index };
        }
    }
    *fonts_chosen = true;
    true
}

} // verus!

verus! {

// ---------------------------------------------------------------- demo lists

/// The body of the showcase demo's open to-do.
pub const SHOWCASE_BODY: &'static str = "## Headings, lists and links\n\n\
                              A body can hold a note, a \
                              [link](https://example.com), or a snippet:\n\n\
                              ```rust\nfn debounce(last: Instant) -> bool {\n    \
                              last.elapsed() > Duration::from_millis(800)\n}\n```\n\n\
                              - `inline code` stays monospace\n\
                              - lists stay tight\n  - and they nest\n\n\
                              > Long lines scroll sideways, because wrapped code \
                              is unreadable.";

/// The body of the body demo's open to-do.
pub const BODY_DEMO_BODY: &'static str = "Bodies hold *anything* \u{2014} a note, a link to \
                              [the docs](https://example.com), or a snippet:\n\n\
                              ```rust\nfn debounce(last: Instant) -> bool {\n    \
                              last.elapsed() > Duration::from_millis(800)\n}\n```\n\n\
                              - `code` stays monospace\n- lists stay tight\n  - and nest\n\n\
                              > Long lines scroll sideways instead of wrapping.";

/// The scripted states the screenshots are taken in. Each is reachable from
/// a fresh start, with no input driving it.
#[derive(Debug, Clone, Copy, PartialEq, Eq, Structural)]
pub enum Demo {
    Empty,
    Long,
    Settings,
    Shortcuts,
    Toast,
    Hero,
    Showcase,
    Body,
    Editing,
    Rendered,
    Basic,
}

/// The demo a scenario name asks for; an unknown name gets the basic list.
pub open spec fn demo_named(s: Seq<char>) -> Demo {
    if s == "empty"@ {
        Demo::Empty
    } else if s == "long"@ {
        Demo::Long
    } else if s == "settings"@ {
        Demo::Settings
    } else if s == "shortcuts"@ {
        Demo::Shortcuts
    } else if s == "toast"@ {
        Demo::Toast
    } else if s == "hero"@ {
        Demo::Hero
    } else if s == "showcase"@ {
        Demo::Showcase
    } else if s == "body"@ {
        Demo::Body
    } else if s == "editing"@ {
        Demo::Editing
    } else if s == "rendered"@ {
        Demo::Rendered
    } else {
        Demo::Basic
    }
}

/// The demo a scenario name asks for.
pub fn demo_of(s: &str) -> (d: Demo)
    ensures
        d == demo_named(s@),
{
    if same_str(s, "empty") {
        Demo::Empty
    } else if same_str(s, "long") {
        Demo::Long
    } else if same_str(s, "settings") {
        Demo::Settings
    } else if same_str(s, "shortcuts") {
        Demo::Shortcuts
    } else if same_str(s, "toast") {
        Demo::Toast
    } else if same_str(s, "hero") {
        Demo::Hero
    } else if same_str(s, "showcase") {
        Demo::Showcase
    } else if same_str(s, "body") {
        Demo::Body
    } else if same_str(s, "editing") {
        Demo::Editing
    } else if same_str(s, "rendered") {
        Demo::Rendered
    } else {
        Demo::Basic
    }
}

/// A to-do as a demo shows it: its title, whether it is done, its body,
/// and whether it is expanded.
pub open spec fn shows_row(t: Todo, r: (Seq<char>, bool, Seq<char>, bool)) -> bool {
    &&& t.title@ == r.0
    &&& t.done == r.1
    &&& t.body@ == r.2
    &&& t.expanded == r.3
    &&& (t.completed_at is Some) == t.done
    &&& t.extra@.len() == 0
}

/// Row `k` of the long demo.
pub open spec fn long_row(k: int) -> (Seq<char>, bool, Seq<char>, bool) {
    ("Recurring thought number "@ + decimal((k + 1) as nat), (k + 1) % 4 == 0, Seq::empty(), false)
}

/// A plain open row with no body.
pub open spec fn plain(title: Seq<char>) -> (Seq<char>, bool, Seq<char>, bool) {
    (title, false, Seq::empty(), false)
}

/// A done row with no body.
pub open spec fn finished(title: Seq<char>) -> (Seq<char>, bool, Seq<char>, bool) {
    (title, true, Seq::empty(), false)
}

/// The rows of each demo list, top to bottom.
pub open spec fn demo_rows(d: Demo) -> Seq<(Seq<char>, bool, Seq<char>, bool)> {
    match d {
        Demo::Empty | Demo::Shortcuts => Seq::empty(),
        Demo::Long => Seq::new(30, |k: int| long_row(k)),
        Demo::Settings => seq![
            plain("Then forget the settings exist"@),
            plain("Pick a colour you actually like"@),
        ],
        Demo::Toast => seq![
            plain("Reply to Sam about the offsite"@),
            finished("Renew the car registration"@),
            plain("Pick up oat milk and coffee"@),
        ],
        Demo::Hero => seq![
            finished("Renew the car registration"@),
            plain("Reply to Sam about the offsite"@),
            plain("Pick up oat milk and coffee"@),
            ("Fix the flaky `login_test`"@, false, "Races on the session cookie."@, false),
            plain("Book the dentist"@),
        ],
        Demo::Showcase => seq![
            plain("Everything renders in *your* font and colour"@),
            ("Bodies hold **real** markdown"@, false, SHOWCASE_BODY@, true),
        ],
        Demo::Body => seq![
            finished("Read the plan again"@),
            plain("Keep the list scannable"@),
            ("Ship the **markdown** body renderer"@, false, BODY_DEMO_BODY@, true),
        ],
        Demo::Editing | Demo::Rendered => seq![
            plain("Fix `login_test` before Friday"@),
            plain("Ship the **auth** refactor"@),
        ],
        Demo::Basic => seq![
            plain("That is the whole app"@),
            (
                "Give it a body for the details"@,
                false,
                "Supports `code`, **bold**, and fenced snippets."@,
                false,
            ),
            finished("Add a todo and check it off"@),
        ],
    }
}

/// The ids of a list a demo is being built in stay below `u64::MAX`, with
/// room for thousands more.
pub open spec fn ids_in_room(todos: Seq<Todo>) -> bool {
    &&& todos.len() < 4000
    &&& forall|j: int|
        0 <= j < todos.len() ==> (#[trigger] todos[j]).id < 0xffff_ffff_ffff_f000 + todos.len()
}

/// Appends one demo row to a list.
fn seed(store: &mut Store, title: &str, done: bool, body: &str, expanded: bool) -> (id: u64)
    requires
        ids_in_room(old(store).todos@),
        old(store).todos@.len() < 3999,
        ids_unique(old(store).todos@),
    ensures
        final(store).todos@.len() == old(store).todos@.len() + 1,
        final(store).todos@.drop_last() == old(store).todos@,
        shows_row(final(store).todos@.last(), (title@, done, body@, expanded)),
        final(store).todos@.last().id == id,
        ids_in_room(final(store).todos@),
        ids_unique(final(store).todos@),
        final(store).version == old(store).version,
        final(store).extra == old(store).extra,
{
    let ghost before = store.todos@;
    proof {
        crate::model::lemma_id_ceiling(before);
    }
    let id = store.add(title);
    proof {
        let all = store.todos@;
        assert forall|j: int| 0 <= j < all.len() - 1 implies (#[trigger] all[j]).id != id by {
            assert(all[j] == before[j]);
        }
        crate::model::lemma_first_index_unique(all, id, all.len() - 1);
    }
    if done {
        store.toggle(id);
    }
    let k = store.todos.len() - 1;
    let mut t = store.todos.remove(k);
    t.body = body.to_owned();
    t.expanded = expanded;
    let ghost tg = t;
    store.todos.push(t);
    proof {
        let all = store.todos@;
        assert(all.drop_last() =~= before);
        assert(all.last() == tg);
        assert forall|j: int| 0 <= j < all.len() implies (#[trigger] all[j]).id < 0xffff_ffff_ffff_f000
            + all.len() by {
            if j < all.len() - 1 {
                assert(all[j] == before[j]);
            }
        }
        assert forall|i: int, j: int|
            0 <= i < all.len() && 0 <= j < all.len() && i != j implies #[trigger] all[i].id
            != #[trigger] all[j].id by {
            if i < all.len() - 1 {
                assert(all[i] == before[i]);
            }
            if j < all.len() - 1 {
                assert(all[j] == before[j]);
            }
        }
    }
    id
}

impl Session {
    /// What seeding a demo does: the list is replaced by the demo's rows,
    /// and the demo's sheet, notice or edit is opened.
    pub open spec fn seeded(b: Session, a: Session, name: Seq<char>) -> bool {
        let d = demo_named(name);
        let rows = demo_rows(d);
        &&& a.store.version == crate::model::STORE_VERSION
        &&& a.store.extra@.len() == 0
        &&& a.store.todos@.len() == rows.len()
        &&& forall|i: int| 0 <= i < rows.len() ==> shows_row(#[trigger] a.store.todos@[i], rows[i])
        &&& ids_unique(a.store.todos@)
        &&& a.show_settings == (b.show_settings || d == Demo::Settings || d == Demo::Shortcuts)
        &&& a.show_shortcuts == (b.show_shortcuts || d == Demo::Shortcuts)
        &&& a.composer == b.composer
        &&& a.composer_focus == b.composer_focus
        &&& a.touched == b.touched
        &&& if d == Demo::Toast {
            &&& a.undo matches Some((ix, t)) && ix == 1 && exists|now: i64|
                t.is_fresh(1, "Book the dentist"@, now)
            &&& a.toast matches Some(n) && n.undoable && n.message@
                == "Deleted \u{201c}Book the dentist\u{201d}"@
        } else {
            a.undo == b.undo && a.toast == b.toast
        }
        &&& if d == Demo::Editing {
            a.editing matches Some(e) && e.id == a.store.todos@[1].id && e.field == Field::Title
                && e.draft@ == "Ship the **auth** refactor"@ && e.original@
                == "Ship the **auth** refactor"@ && !e.focus_requested
        } else {
            a.editing == b.editing
        }
    }

    /// Replaces the session with one of the scripted demo states the
    /// screenshots are taken in, named as in `demo_named`.
    pub fn seed_demo(&mut self, scenario: &str)
        ensures
            Session::seeded(*old(self), *final(self), scenario@),
    {
        let d = demo_of(scenario);
        self.store = Store::default();
        proof {
            reveal_strlit("");
            assert(""@ =~= Seq::<char>::empty());
        }
        match d {
            Demo::Empty => {},
            Demo::Long => {
                let mut i: u64 = 1;
                while i <= 30
                    invariant
                        1 <= i <= 31,
                        self.store.todos@.len() == i - 1,
                        forall|k: int|
                            0 <= k < i - 1 ==> shows_row(
                                #[trigger] self.store.todos@[k],
                                long_row(k),
                            ),
                        ids_in_room(self.store.todos@),
                        ids_unique(self.store.todos@),
                        self.store.version == crate::model::STORE_VERSION,
                        self.store.extra@.len() == 0,
                        self.same_surroundings(old(self)),
                        self.editing == old(self).editing,
                        self.touched == old(self).touched,
                        ""@ == Seq::<char>::empty(),
                    decreases 31 - i,
                {
                    let mut v = chars_of("Recurring thought number ");
                    let digits = crate::text::decimal_of(i);
                    crate::text::extend(&mut v, digits.as_slice());
                    let title = string_of(v.as_slice());
                    let ghost before = self.store.todos@;
                    seed(&mut self.store, title.as_str(), i % 4 == 0, "", false);
                    proof {
                        let all = self.store.todos@;
                        assert forall|k: int| 0 <= k < i implies shows_row(
                            #[trigger] all[k],
                            long_row(k),
                        ) by {
                            if k < i - 1 {
                                assert(all[k] == before[k]);
                            }
                        }
                    }
                    i += 1;
                }
            },
            Demo::Settings => {
                seed(&mut self.store, "Then forget the settings exist", false, "", false);
                seed(&mut self.store, "Pick a colour you actually like", false, "", false);
                self.show_settings = true;
            },
            Demo::Shortcuts => {
                self.show_settings = true;
                self.show_shortcuts = true;
            },
            Demo::Toast => {
                seed(&mut self.store, "Reply to Sam about the offsite", false, "", false);
                seed(&mut self.store, "Renew the car registration", true, "", false);
                seed(&mut self.store, "Pick up oat milk and coffee", false, "", false);
                self.undo = Some((1, Todo::new(1, "Book the dentist")));
                self.toast = Some(
                    Toast {
                        message: "Deleted \u{201c}Book the dentist\u{201d}".to_owned(),
                        undoable: true,
                    },
                );
            },
            Demo::Hero => {
                seed(&mut self.store, "Renew the car registration", true, "", false);
                seed(&mut self.store, "Reply to Sam about the offsite", false, "", false);
                seed(&mut self.store, "Pick up oat milk and coffee", false, "", false);
                seed(
                    &mut self.store,
                    "Fix the flaky `login_test`",
                    false,
                    "Races on the session cookie.",
                    false,
                );
                seed(&mut self.store, "Book the dentist", false, "", false);
            },
            Demo::Showcase => {
                seed(
                    &mut self.store,
                    "Everything renders in *your* font and colour",
                    false,
                    "",
                    false,
                );
                seed(&mut self.store, "Bodies hold **real** markdown", false, SHOWCASE_BODY, true);
            },
            Demo::Body => {
                seed(&mut self.store, "Read the plan again", true, "", false);
                seed(&mut self.store, "Keep the list scannable", false, "", false);
                seed(
                    &mut self.store,
                    "Ship the **markdown** body renderer",
                    false,
                    BODY_DEMO_BODY,
                    true,
                );
            },
            Demo::Editing | Demo::Rendered => {
                seed(&mut self.store, "Fix `login_test` before Friday", false, "", false);
                let a = seed(&mut self.store, "Ship the **auth** refactor", false, "", false);
                if d == Demo::Editing {
                    let raw = "Ship the **auth** refactor".to_owned();
                    self.editing = Some(
                        Editing {
                            id: a,
                            field: Field::Title,
                            draft: raw.clone(),
                            original: raw,
                            focus_requested: false,
                        },
                    );
                }
            },
            Demo::Basic => {
                seed(&mut self.store, "That is the whole app", false, "", false);
                seed(
                    &mut self.store,
                    "Give it a body for the details",
                    false,
                    "Supports `code`, **bold**, and fenced snippets.",
                    false,
                );
                seed(&mut self.store, "Add a todo and check it off", true, "", false);
            },
        }
    }
}

} // verus!

verus! {

/// An excerpt never runs past its width: for any positive `max`, at most
/// `max` characters come out, and a title that already fits (once its
/// whitespace is folded) comes out whole, with no ellipsis.
pub proof fn law_excerpt_fits(title: Seq<char>, max: nat)
    requires
        max > 0,
    ensures
        excerpt_spec(title, max).len() <= max,
        collapse(title).len() <= max ==> excerpt_spec(title, max) == collapse(title),
{
    let flat = collapse(title);
    if flat.len() > max {
        crate::text::lemma_trim_end_is_prefix(flat.take(max - 1));
    }
}

} // verus!
