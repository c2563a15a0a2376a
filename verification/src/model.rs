//! The entire data model: one ordered list of to-dos.

use vstd::prelude::*;

use crate::text::{any_ink, chars_of, has_ink};

verus! {

pub const STORE_VERSION: u32 = 1;

/// The version a stored list that names none is read as.
pub fn default_version() -> (v: u32)
    ensures
        v == STORE_VERSION,
{
    STORE_VERSION
}

// ---------------------------------------------------------------- the clock

#[verifier::external_type_specification]
#[verifier::external_body]
pub struct ExSystemTime(std::time::SystemTime);

/// `SystemTime::now`: what the system clock reads. Nothing is stated of it.
#[verifier::external_body]
fn clock_reading() -> std::time::SystemTime {
    std::time::SystemTime::now()
}

/// `SystemTime::duration_since` measured from the Unix epoch, `None` when the
/// reading lies before it. Nothing is stated of the span.
#[verifier::external_body]
fn since_epoch(t: &std::time::SystemTime) -> Option<std::time::Duration> {
    t.duration_since(std::time::UNIX_EPOCH).ok()
}

/// `Duration::as_secs`: the whole seconds in a span.
#[verifier::external_body]
fn whole_secs(d: &std::time::Duration) -> u64 {
    d.as_secs()
}

/// `Duration::as_millis`: the whole milliseconds in a span.
#[verifier::external_body]
fn whole_millis(d: &std::time::Duration) -> u128 {
    d.as_millis()
}

/// Seconds since the Unix epoch, or 0 when the clock is set before it.
pub fn now_secs() -> i64 {
    let t = clock_reading();
    match since_epoch(&t) {
        Some(d) => whole_secs(&d) as i64,
        None => 0,
    }
}

/// Milliseconds since the Unix epoch, or 0 when the clock is set before it.
fn now_millis() -> u64 {
    let t = clock_reading();
    match since_epoch(&t) {
        Some(d) => whole_millis(&d) as u64,
        None => 0,
    }
}

// ---------------------------------------------------------------- records

/// One to-do.
#[derive(Debug, Clone, PartialEq)]
pub struct Todo {
    pub id: u64,
    pub title: String,
    pub body: String,
    pub done: bool,
    pub created_at: i64,
    pub completed_at: Option<i64>,
    pub expanded: bool,
    /// Keys written by a newer version, as `(key, JSON text)`, kept so a save
    /// gives them back instead of destroying them.
    pub extra: Vec<(String, String)>,
}

impl Todo {
    /// Describes a to-do just made: open, collapsed, no body, nothing extra.
    pub open spec fn is_fresh(&self, id: u64, title: Seq<char>, created_at: i64) -> bool {
        &&& self.id == id
        &&& self.title@ == title
        &&& self.body@ == Seq::<char>::empty()
        &&& !self.done
        &&& self.created_at == created_at
        &&& self.completed_at is None
        &&& !self.expanded
        &&& self.extra@.len() == 0
    }

    /// A new to-do, stamped with the current time.
    pub fn new(id: u64, title: &str) -> (t: Todo)
        ensures
            exists|now: i64| t.is_fresh(id, title@, now),
    {
        Todo::new_at(id, title, now_secs())
    }

    /// A new to-do created at the given time.
    pub fn new_at(id: u64, title: &str, created_at: i64) -> (t: Todo)
        ensures
            t.is_fresh(id, title@, created_at),
    {
        Todo {
            id,
            title: title.to_owned(),
            body: String::new(),
            done: false,
            created_at,
            completed_at: None,
            expanded: false,
            extra: Vec::new(),
        }
    }

    /// A body of nothing but whitespace counts as no body.
    pub fn has_body(&self) -> (r: bool)
        ensures
            r == has_ink(self.body@),
    {
        let cs = chars_of(self.body.as_str());
        any_ink(cs.as_slice())
    }
}

/// The to-do with its completion flipped at time `now`.
pub open spec fn toggled(t: Todo, now: i64) -> Todo {
    Todo { done: !t.done, completed_at: if !t.done { Some(now) } else { None }, ..t }
}

/// The position of the first to-do with this id.
pub open spec fn first_index(todos: Seq<Todo>, id: u64) -> Option<int>
    decreases todos.len(),
{
    if todos.len() == 0 {
        None
    } else {
        match first_index(todos.drop_last(), id) {
            Some(i) => Some(i),
            None => if todos.last().id == id {
                Some(todos.len() - 1)
            } else {
                None
            },
        }
    }
}

/// One more than the largest id, or 0 for an empty list.
pub open spec fn id_ceiling(todos: Seq<Todo>) -> nat
    decreases todos.len(),
{
    if todos.len() == 0 {
        0
    } else {
        let rest = id_ceiling(todos.drop_last());
        if todos.last().id + 1 > rest {
            (todos.last().id + 1) as nat
        } else {
            rest
        }
    }
}

/// No two to-dos share an id.
pub open spec fn ids_unique(todos: Seq<Todo>) -> bool {
    forall|i: int, j: int|
        0 <= i < todos.len() && 0 <= j < todos.len() && i != j ==> #[trigger] todos[i].id
            != #[trigger] todos[j].id
}

/// The ids shown, in order: every to-do, or only open ones when completed
/// to-dos are hidden.
pub open spec fn visible(todos: Seq<Todo>, hide_completed: bool) -> Seq<u64>
    decreases todos.len(),
{
    if todos.len() == 0 {
        Seq::empty()
    } else {
        let rest = visible(todos.drop_last(), hide_completed);
        if hide_completed && todos.last().done {
            rest
        } else {
            rest.push(todos.last().id)
        }
    }
}

/// The list with the entry at `from` moved so it sits at `to`.
pub open spec fn moved(todos: Seq<Todo>, from: int, to: int) -> Seq<Todo> {
    todos.remove(from).insert(to, todos[from])
}

/// The list with the entries at `a` and `b` exchanged.
pub open spec fn swapped(todos: Seq<Todo>, a: int, b: int) -> Seq<Todo> {
    todos.update(a, todos[b]).update(b, todos[a])
}

/// The list with the to-do of this id swapped with the one above it; the
/// top one, or a missing id, leaves it as it is.
pub open spec fn raised(todos: Seq<Todo>, id: u64) -> Seq<Todo> {
    match first_index(todos, id) {
        Some(i) if i > 0 => swapped(todos, i - 1, i),
        _ => todos,
    }
}

/// The list with the to-do of this id swapped with the one below it; the
/// bottom one, or a missing id, leaves it as it is.
pub open spec fn lowered(todos: Seq<Todo>, id: u64) -> Seq<Todo> {
    match first_index(todos, id) {
        Some(i) if i + 1 < todos.len() => swapped(todos, i, i + 1),
        _ => todos,
    }
}

// ---------------------------------------------------------------- lemmas

pub proof fn lemma_first_index(todos: Seq<Todo>, id: u64)
    ensures
        match first_index(todos, id) {
            Some(i) => 0 <= i < todos.len() && todos[i].id == id && forall|j: int|
                0 <= j < i ==> (#[trigger] todos[j]).id != id,
            None => forall|j: int| 0 <= j < todos.len() ==> (#[trigger] todos[j]).id != id,
        },
    decreases todos.len(),
{
    if todos.len() > 0 {
        let p = todos.drop_last();
        lemma_first_index(p, id);
        assert forall|j: int| 0 <= j < p.len() implies p[j] == todos[j] by {}
    }
}

pub proof fn lemma_first_index_unique(todos: Seq<Todo>, id: u64, i: int)
    requires
        0 <= i < todos.len(),
        todos[i].id == id,
        forall|j: int| 0 <= j < i ==> (#[trigger] todos[j]).id != id,
    ensures
        first_index(todos, id) == Some(i),
{
    lemma_first_index(todos, id);
}

pub proof fn lemma_id_ceiling(todos: Seq<Todo>)
    ensures
        forall|j: int| 0 <= j < todos.len() ==> (#[trigger] todos[j]).id < id_ceiling(todos),
        id_ceiling(todos) == 0 || exists|j: int|
            0 <= j < todos.len() && id_ceiling(todos) == (#[trigger] todos[j]).id + 1,
    decreases todos.len(),
{
    if todos.len() > 0 {
        let p = todos.drop_last();
        lemma_id_ceiling(p);
        assert forall|j: int| 0 <= j < todos.len() implies (#[trigger] todos[j]).id < id_ceiling(
            todos,
        ) by {
            if j < p.len() {
                assert(todos[j] == p[j]);
            }
        }
        if id_ceiling(todos) != todos.last().id + 1 && id_ceiling(p) != 0 {
            let j = choose|j: int| 0 <= j < p.len() && id_ceiling(p) == (#[trigger] p[j]).id + 1;
            assert(todos[j] == p[j]);
        }
    }
}

// ---------------------------------------------------------------- the store

/// The whole list, as saved to disk.
#[derive(Debug, Clone)]
pub struct Store {
    pub version: u32,
    pub todos: Vec<Todo>,
    /// Top-level keys written by a newer version, as `(key, JSON text)`.
    pub extra: Vec<(String, String)>,
}

impl Default for Store {
    fn default() -> (s: Store)
        ensures
            s.version == STORE_VERSION,
            s.todos@.len() == 0,
            s.extra@.len() == 0,
    {
        Store { version: STORE_VERSION, todos: Vec::new(), extra: Vec::new() }
    }
}

impl Store {
    /// An id for a new to-do given a clock reading in milliseconds:
    /// timestamp-derived so ids stay meaningful across sessions, but always
    /// past every existing id so a clock that jumps backwards cannot collide.
    pub fn next_id_after(&self, clock_ms: u64) -> (id: u64)
        requires
            forall|j: int| 0 <= j < self.todos@.len() ==> (#[trigger] self.todos@[j]).id < u64::MAX,
        ensures
            id >= id_ceiling(self.todos@),
            id <= 0xffff_ffff_ffff_f000 || id == id_ceiling(self.todos@),
            id == (if (clock_ms << 12u64) >= id_ceiling(self.todos@) {
                (clock_ms << 12u64) as int
            } else {
                id_ceiling(self.todos@) as int
            }),
    {
        let from_clock = clock_ms << 12u64;
        assert(from_clock <= 0xffff_ffff_ffff_f000) by (bit_vector)
            requires
                from_clock == clock_ms << 12u64,
        ;
        let mut from_data: u64 = 0;
        let mut i: usize = 0;
        while i < self.todos.len()
            invariant
                i <= self.todos@.len(),
                forall|j: int|
                    0 <= j < self.todos@.len() ==> (#[trigger] self.todos@[j]).id < u64::MAX,
                from_data as nat == id_ceiling(self.todos@.take(i as int)),
            decreases self.todos@.len() - i,
        {
            proof {
                assert(self.todos@.take(i + 1).drop_last() =~= self.todos@.take(i as int));
            }
            let id = self.todos[i].id;
            if id + 1 > from_data {
                from_data = id + 1;
            }
            i += 1;
        }
        proof {
            assert(self.todos@.take(self.todos@.len() as int) =~= self.todos@);
        }
        if from_clock >= from_data {
            from_clock
        } else {
            from_data
        }
    }

    fn next_id(&self) -> (id: u64)
        requires
            forall|j: int| 0 <= j < self.todos@.len() ==> (#[trigger] self.todos@[j]).id < u64::MAX,
        ensures
            id >= id_ceiling(self.todos@),
            id <= 0xffff_ffff_ffff_f000 || id == id_ceiling(self.todos@),
            exists|clock_ms: u64| id == self.next_id_spec(clock_ms),
    {
        let clock = now_millis();
        let id = self.next_id_after(clock);
        assert(id == self.next_id_spec(clock));
        id
    }

    /// Appends a to-do to the bottom, where the composer sits, and returns
    /// its id, which is larger than every id already in the list.
    pub fn add(&mut self, title: &str) -> (id: u64)
        requires
            forall|j: int| 0 <= j < old(self).todos@.len() ==> (#[trigger] old(self).todos@[j]).id
                < u64::MAX,
        ensures
            id >= id_ceiling(old(self).todos@),
            id <= 0xffff_ffff_ffff_f000 || id == id_ceiling(old(self).todos@),
            exists|clock_ms: u64| id == old(self).next_id_spec(clock_ms),
            final(self).todos@.len() == old(self).todos@.len() + 1,
            final(self).todos@.drop_last() == old(self).todos@,
            exists|now: i64| final(self).todos@.last().is_fresh(id, title@, now),
            final(self).version == old(self).version,
            final(self).extra == old(self).extra,
            ids_unique(old(self).todos@) ==> ids_unique(final(self).todos@),
    {
        let id = self.next_id();
        let t = Todo::new(id, title);
        let ghost tg = t;
        self.todos.push(t);
        proof {
            assert(self.todos@.last() == tg);
            lemma_id_ceiling(old(self).todos@);
            assert(self.todos@.drop_last() =~= old(self).todos@);
        }
        id
    }

    /// Appends a to-do created at a known time, with an id chosen from a known
    /// clock reading.
    pub fn add_at(&mut self, title: &str, clock_ms: u64, created_at: i64) -> (id: u64)
        requires
            forall|j: int| 0 <= j < old(self).todos@.len() ==> (#[trigger] old(self).todos@[j]).id
                < u64::MAX,
        ensures
            id == old(self).next_id_spec(clock_ms),
            final(self).todos@ == old(self).todos@.push(final(self).todos@.last()),
            final(self).todos@.last().is_fresh(id, title@, created_at),
            final(self).version == old(self).version,
            final(self).extra == old(self).extra,
    {
        let id = self.next_id_after(clock_ms);
        let t = Todo::new_at(id, title, created_at);
        self.todos.push(t);
        id
    }

    /// The id `add_at` picks for a clock reading.
    pub open spec fn next_id_spec(&self, clock_ms: u64) -> u64 {
        if (clock_ms << 12u64) >= id_ceiling(self.todos@) {
            clock_ms << 12u64
        } else {
            id_ceiling(self.todos@) as u64
        }
    }

    /// Where the to-do with this id sits.
    pub fn index_of(&self, id: u64) -> (r: Option<usize>)
        ensures
            r matches Some(i) ==> first_index(self.todos@, id) == Some(i as int) && (i as int)
                < self.todos@.len() && self.todos@[i as int].id == id,
            r is None ==> first_index(self.todos@, id) is None,
    {
        let mut i: usize = 0;
        while i < self.todos.len()
            invariant
                i <= self.todos@.len(),
                forall|j: int| 0 <= j < i ==> (#[trigger] self.todos@[j]).id != id,
            decreases self.todos@.len() - i,
        {
            if self.todos[i].id == id {
                proof {
                    lemma_first_index_unique(self.todos@, id, i as int);
                }
                return Some(i);
            }
            i += 1;
        }
        proof {
            lemma_first_index(self.todos@, id);
            if first_index(self.todos@, id) is Some {
                let k = first_index(self.todos@, id)->0;
                assert(self.todos@[k].id == id);
            }
        }
        None
    }

    pub fn get(&self, id: u64) -> (r: Option<&Todo>)
        ensures
            match first_index(self.todos@, id) {
                Some(i) => r == Some(&self.todos@[i]),
                None => r is None,
            },
    {
        match self.index_of(id) {
            Some(i) => Some(&self.todos[i]),
            None => None,
        }
    }

    pub fn get_mut(&mut self, id: u64) -> (r: Option<&mut Todo>)
        ensures
            match first_index(old(self).todos@, id) {
                Some(i) => r is Some && *r->0 == old(self).todos@[i] && final(self).todos@
                    == old(self).todos@.update(i, *final(r->0)) && final(self).version == old(
                    self,
                ).version && final(self).extra == old(self).extra,
                None => r is None && *final(self) == *old(self),
            },
    {
        match self.index_of(id) {
            Some(i) => Some(&mut self.todos[i]),
            None => None,
        }
    }

    /// Flips a to-do between open and done, stamping when it was finished.
    pub fn toggle(&mut self, id: u64)
        ensures
            exists|now: i64| final(self).todos@ == Store::toggled_list(old(self).todos@, id, now),
            final(self).version == old(self).version,
            final(self).extra == old(self).extra,
    {
        self.toggle_at(id, now_secs());
    }

    /// The list after toggling the to-do with this id at time `now`; unchanged
    /// when no to-do has the id.
    pub open spec fn toggled_list(todos: Seq<Todo>, id: u64, now: i64) -> Seq<Todo> {
        match first_index(todos, id) {
            Some(i) => todos.update(i, toggled(todos[i], now)),
            None => todos,
        }
    }

    /// Flips a to-do at a known time: a finished to-do records `now`, a
    /// reopened one forgets when it was finished.
    pub fn toggle_at(&mut self, id: u64, now: i64)
        ensures
            final(self).todos@ == Store::toggled_list(old(self).todos@, id, now),
            final(self).version == old(self).version,
            final(self).extra == old(self).extra,
    {
        if let Some(i) = self.index_of(id) {
            let mut t = self.todos.remove(i);
            t.done = !t.done;
            t.completed_at = if t.done {
                Some(now)
            } else {
                None
            };
            self.todos.insert(i, t);
            proof {
                assert(self.todos@ =~= old(self).todos@.update(
                    i as int,
                    toggled(old(self).todos@[i as int], now),
                ));
            }
        }
    }

    /// Takes a to-do out, returning where it was so undo can put it back.
    pub fn remove(&mut self, id: u64) -> (r: Option<(usize, Todo)>)
        ensures
            match first_index(old(self).todos@, id) {
                Some(i) => r == Some((i as usize, old(self).todos@[i])) && final(self).todos@
                    == old(self).todos@.remove(i),
                None => r is None && final(self).todos@ == old(self).todos@,
            },
            final(self).version == old(self).version,
            final(self).extra == old(self).extra,
    {
        match self.index_of(id) {
            Some(i) => {
                let t = self.todos.remove(i);
                Some((i, t))
            },
            None => None,
        }
    }

    /// Puts a to-do back at `index`, or at the end if the list has since
    /// become shorter.
    pub fn restore(&mut self, index: usize, todo: Todo)
        ensures
            final(self).todos@ == old(self).todos@.insert(
                if index <= old(self).todos@.len() {
                    index as int
                } else {
                    old(self).todos@.len() as int
                },
                todo,
            ),
            final(self).version == old(self).version,
            final(self).extra == old(self).extra,
    {
        let ix = if index < self.todos.len() {
            index
        } else {
            self.todos.len()
        };
        self.todos.insert(ix, todo);
    }

    /// Moves a to-do to an absolute position. Out-of-range targets clamp to
    /// the last position.
    pub fn move_to(&mut self, id: u64, to: usize)
        ensures
            match first_index(old(self).todos@, id) {
                Some(from) => {
                    let n = old(self).todos@.len();
                    let dest = if to < n - 1 {
                        to as int
                    } else {
                        n - 1
                    };
                    final(self).todos@ == moved(old(self).todos@, from, dest)
                },
                None => final(self).todos@ == old(self).todos@,
            },
            final(self).version == old(self).version,
            final(self).extra == old(self).extra,
    {
        let from = match self.index_of(id) {
            Some(f) => f,
            None => return,
        };
        let last = self.todos.len() - 1;
        let to = if to < last {
            to
        } else {
            last
        };
        if from == to {
            proof {
                assert(moved(old(self).todos@, from as int, to as int) =~= old(self).todos@);
            }
            return;
        }
        let t = self.todos.remove(from);
        self.todos.insert(to, t);
    }

    /// Swaps a to-do with the one above it; the top one stays put.
    pub fn move_up(&mut self, id: u64)
        ensures
            final(self).todos@ == raised(old(self).todos@, id),
            final(self).version == old(self).version,
            final(self).extra == old(self).extra,
    {
        if let Some(ix) = self.index_of(id) {
            if ix > 0 {
                let t = self.todos.remove(ix);
                self.todos.insert(ix - 1, t);
                proof {
                    assert(self.todos@ =~= swapped(old(self).todos@, ix - 1, ix as int));
                }
            }
        }
    }

    /// Swaps a to-do with the one below it; the bottom one stays put.
    pub fn move_down(&mut self, id: u64)
        ensures
            final(self).todos@ == lowered(old(self).todos@, id),
            final(self).version == old(self).version,
            final(self).extra == old(self).extra,
    {
        if let Some(ix) = self.index_of(id) {
            let n = self.todos.len();
            assert(ix < n);
            if ix + 1 < n {
                let t = self.todos.remove(ix);
                self.todos.insert(ix + 1, t);
                proof {
                    assert(self.todos@ =~= swapped(old(self).todos@, ix as int, ix + 1));
                }
            }
        }
    }

    /// True when at least one to-do is done.
    pub fn any_completed(&self) -> (r: bool)
        ensures
            r == exists|j: int| 0 <= j < self.todos@.len() && (#[trigger] self.todos@[j]).done,
    {
        let mut i: usize = 0;
        while i < self.todos.len()
            invariant
                i <= self.todos@.len(),
                forall|j: int| 0 <= j < i ==> !(#[trigger] self.todos@[j]).done,
            decreases self.todos@.len() - i,
        {
            if self.todos[i].done {
                return true;
            }
            i += 1;
        }
        false
    }

    /// Ids in display order, honouring the hide-completed toggle.
    pub fn visible_ids(&self, hide_completed: bool) -> (r: Vec<u64>)
        ensures
            r@ == visible(self.todos@, hide_completed),
    {
        let mut out: Vec<u64> = Vec::new();
        let mut i: usize = 0;
        while i < self.todos.len()
            invariant
                i <= self.todos@.len(),
                out@ == visible(self.todos@.take(i as int), hide_completed),
            decreases self.todos@.len() - i,
        {
            proof {
                assert(self.todos@.take(i + 1).drop_last() =~= self.todos@.take(i as int));
            }
            if !(hide_completed && self.todos[i].done) {
                out.push(self.todos[i].id);
            }
            i += 1;
        }
        proof {
            assert(self.todos@.take(self.todos@.len() as int) =~= self.todos@);
        }
        out
    }
}

// ---------------------------------------------------------------- laws

/// Undo puts a deleted to-do back exactly where it was: `restore` at the
/// index `remove` reported gives back the original list.
pub proof fn law_restore_undoes_remove(todos: Seq<Todo>, id: u64)
    requires
        first_index(todos, id) is Some,
    ensures
        ({
            let i = first_index(todos, id)->0;
            let removed = todos.remove(i);
            removed.insert(
                if i <= removed.len() {
                    i
                } else {
                    removed.len() as int
                },
                todos[i],
            ) == todos
        }),
{
    lemma_first_index(todos, id);
    let i = first_index(todos, id)->0;
    assert(todos.remove(i).insert(i, todos[i]) =~= todos);
}

/// Moving a to-do down and then up returns the list to where it started,
/// whenever it was not already at the bottom and ids are unique.
pub proof fn law_move_down_then_up(todos: Seq<Todo>, id: u64)
    requires
        ids_unique(todos),
        first_index(todos, id) matches Some(i) && i + 1 < todos.len(),
    ensures
        raised(lowered(todos, id), id) == todos,
{
    lemma_first_index(todos, id);
    let i = first_index(todos, id)->0;
    let down = swapped(todos, i, i + 1);
    assert(todos[i + 1].id != id);
    assert forall|j: int| 0 <= j < i + 1 implies (#[trigger] down[j]).id != id by {
        if j < i {
            assert(down[j] == todos[j]);
        } else {
            assert(down[j] == todos[i + 1]);
        }
    }
    lemma_first_index_unique(down, id, i + 1);
    assert(swapped(down, i, i + 1) =~= todos);
}

/// Toggling twice gives back the original completion state, and a toggled
/// to-do has a completion time exactly when it is done.
pub proof fn law_toggle_twice(t: Todo, a: i64, b: i64)
    ensures
        toggled(toggled(t, a), b).done == t.done,
        toggled(t, a).completed_at is Some == toggled(t, a).done,
        toggled(toggled(t, a), b).id == t.id && toggled(toggled(t, a), b).title == t.title
            && toggled(toggled(t, a), b).body == t.body,
{
}

/// Adding keeps ids unique: the new id is larger than every id in the list.
pub proof fn law_new_id_is_fresh(todos: Seq<Todo>, id: u64)
    requires
        id >= id_ceiling(todos),
    ensures
        forall|j: int| 0 <= j < todos.len() ==> (#[trigger] todos[j]).id < id,
{
    lemma_id_ceiling(todos);
}

/// With completed to-dos hidden, no completed to-do is shown; with them
/// shown, every to-do is.
pub proof fn law_hidden_means_open(todos: Seq<Todo>)
    requires
        ids_unique(todos),
    ensures
        forall|j: int|
            0 <= j < todos.len() && (#[trigger] todos[j]).done ==> !visible(todos, true).contains(
                todos[j].id,
            ),
        visible(todos, false) == todos.map_values(|t: Todo| t.id),
{
    assert forall|j: int|
        0 <= j < todos.len() && (#[trigger] todos[j]).done implies !visible(todos, true).contains(
        todos[j].id,
    ) by {
        if visible(todos, true).contains(todos[j].id) {
            let w = lemma_visible_member(todos, true, todos[j].id);
            assert(w != j);
        }
    }
    lemma_visible_all(todos);
}

proof fn lemma_visible_all(todos: Seq<Todo>)
    ensures
        visible(todos, false) == todos.map_values(|t: Todo| t.id),
    decreases todos.len(),
{
    if todos.len() > 0 {
        lemma_visible_all(todos.drop_last());
        assert(visible(todos, false) =~= todos.map_values(|t: Todo| t.id));
    }
}

/// Every id shown belongs to a to-do that may be shown.
proof fn lemma_visible_member(todos: Seq<Todo>, hide: bool, id: u64) -> (j: int)
    requires
        visible(todos, hide).contains(id),
    ensures
        0 <= j < todos.len(),
        todos[j].id == id,
        !(hide && todos[j].done),
    decreases todos.len(),
{
    let p = todos.drop_last();
    let v = visible(todos, hide);
    let k = choose|k: int| 0 <= k < v.len() && v[k] == id;
    if k < visible(p, hide).len() {
        assert(visible(p, hide)[k] == id);
        let j = lemma_visible_member(p, hide, id);
        assert(todos[j] == p[j]);
        j
    } else {
        todos.len() - 1
    }
}

} // verus!

verus! {

/// Checking a to-do off leaves it exactly where it is: the list keeps its
/// length and order, and only the toggled to-do changes, in nothing but its
/// completion.
pub proof fn law_toggle_keeps_place(todos: Seq<Todo>, id: u64, now: i64)
    ensures
        Store::toggled_list(todos, id, now).len() == todos.len(),
        forall|j: int|
            0 <= j < todos.len() ==> (#[trigger] Store::toggled_list(todos, id, now)[j]).id
                == todos[j].id,
        forall|j: int|
            0 <= j < todos.len() && todos[j].id != id ==> #[trigger] Store::toggled_list(
                todos,
                id,
                now,
            )[j] == todos[j],
        forall|j: int|
            0 <= j < todos.len() ==> (#[trigger] Store::toggled_list(todos, id, now)[j]).title
                == todos[j].title && Store::toggled_list(todos, id, now)[j].body == todos[j].body,
{
    lemma_first_index(todos, id);
}

} // verus!
