//! A small command line over the same to-do file the app uses, so scripts
//! and coding agents can read and write the list.
//!
//! Arguments are parsed by hand: the grammar is five verbs and four flags.

use vstd::prelude::*;

use crate::model::{first_index, ids_unique, lemma_first_index, lemma_first_index_unique, Store, Todo};
use crate::text::{
    chars_of, decimal, decimal_of, extend, extend_str, has_ink, parse_u64, parse_u64_spec,
    same_str, string_of, trim, trimmed, any_ink,
};

verus! {

pub const USAGE: &'static str = "\
flodo — a floating to-do list

USAGE
    flodo                            Launch the app
    flodo list [options]             Print to-dos
    flodo add <text...> [options]    Add a to-do, print its id
    flodo done <id>...               Mark to-dos complete
    flodo undone <id>...             Mark to-dos not complete
    flodo rm <id>...                 Delete to-dos

LIST OPTIONS
    --json                           Machine-readable JSON array
    --all                            Include completed to-dos
    --count                          Print only how many matched

ADD OPTIONS
    --body <text>                    Attach a markdown body
    --json                           Print the created to-do as JSON

GLOBAL
    -h, --help                       Show this help
    -V, --version                    Show the version

NOTES
    Titles and bodies are markdown. Ids come from `flodo list --json`.
    Set FLODO_STATE_DIR to use a different data directory.
";

// ------------------------------------------------------------ quoting

/// What `format!("{:?}", s)` writes for a string: the text in double quotes
/// with Rust's escapes applied.
pub uninterp spec fn debug_quoted(s: Seq<char>) -> Seq<char>;

/// `format!("{:?}", s)`.
#[verifier::external_body]
fn debug_quote(s: &str) -> (r: String)
    ensures
        r@ == debug_quoted(s@),
{
    format!("{s:?}")
}

/// True when `s` spells `lit`.
fn is(s: &str, lit: &str) -> (r: bool)
    ensures
        r == (s@ == lit@),
{
    same_str(s, lit)
}

/// True when `s` begins with `--`.
fn starts_with_dashes(s: &str) -> (r: bool)
    ensures
        r == (s@.len() >= 2 && s@[0] == '-' && s@[1] == '-'),
{
    let a = chars_of(s);
    a.len() >= 2 && a[0] == '-' && a[1] == '-'
}

// ------------------------------------------------------------ commands

#[derive(Debug, Clone, PartialEq)]
pub enum Command {
    /// No arguments: run the GUI.
    Gui,
    Help,
    Version,
    List { json: bool, all: bool, count: bool },
    Add { title: String, body: Option<String>, json: bool },
    SetDone { ids: Vec<u64>, done: bool },
    Remove { ids: Vec<u64> },
}

/// A command as plain values.
pub enum CommandView {
    Gui,
    Help,
    Version,
    List { json: bool, all: bool, count: bool },
    Add { title: Seq<char>, body: Option<Seq<char>>, json: bool },
    SetDone { ids: Seq<u64>, done: bool },
    Remove { ids: Seq<u64> },
}

impl View for Command {
    type V = CommandView;

    open spec fn view(&self) -> CommandView {
        match self {
            Command::Gui => CommandView::Gui,
            Command::Help => CommandView::Help,
            Command::Version => CommandView::Version,
            Command::List { json, all, count } => CommandView::List {
                json: *json,
                all: *all,
                count: *count,
            },
            Command::Add { title, body, json } => CommandView::Add {
                title: title@,
                body: match body {
                    Some(b) => Some(b@),
                    None => None,
                },
                json: *json,
            },
            Command::SetDone { ids, done } => CommandView::SetDone { ids: ids@, done: *done },
            Command::Remove { ids } => CommandView::Remove { ids: ids@ },
        }
    }
}

/// Every argument spells an id; the first that does not is the error.
pub open spec fn ids_spec(rest: Seq<Seq<char>>) -> Result<Seq<u64>, Seq<char>>
    decreases rest.len(),
{
    if rest.len() == 0 {
        Ok(Seq::empty())
    } else {
        match ids_spec(rest.drop_last()) {
            Err(e) => Err(e),
            Ok(ids) => match parse_u64_spec(rest.last()) {
                Some(id) => Ok(ids.push(id)),
                None => Err(debug_quoted(rest.last()) + " is not a valid id"@),
            },
        }
    }
}

/// The id list a `done`, `undone` or `rm` takes.
pub open spec fn id_list_spec(rest: Seq<Seq<char>>) -> Result<Seq<u64>, Seq<char>> {
    if rest.len() == 0 {
        Err("expected at least one id (get them from `flodo list --json`)"@)
    } else {
        ids_spec(rest)
    }
}

/// The flags of `list`, read left to right.
pub open spec fn list_spec(rest: Seq<Seq<char>>) -> Result<(bool, bool, bool), Seq<char>>
    decreases rest.len(),
{
    if rest.len() == 0 {
        Ok((false, false, false))
    } else {
        match list_spec(rest.drop_last()) {
            Err(e) => Err(e),
            Ok((json, all, count)) => {
                let a = rest.last();
                if a == "--json"@ {
                    Ok((true, all, count))
                } else if a == "--all"@ {
                    Ok((json, true, count))
                } else if a == "--count"@ {
                    Ok((json, all, true))
                } else {
                    Err("unknown option for `list`: "@ + debug_quoted(a))
                }
            },
        }
    }
}

/// The arguments of `add`, read left to right: the bare words, the last
/// `--body` value, and whether `--json` appeared.
pub open spec fn add_spec(
    rest: Seq<Seq<char>>,
    words: Seq<Seq<char>>,
    body: Option<Seq<char>>,
    json: bool,
) -> Result<(Seq<Seq<char>>, Option<Seq<char>>, bool), Seq<char>>
    decreases rest.len(),
{
    if rest.len() == 0 {
        Ok((words, body, json))
    } else {
        let a = rest[0];
        if a == "--body"@ {
            if rest.len() < 2 {
                Err("`--body` needs a value"@)
            } else {
                add_spec(rest.skip(2), words, Some(rest[1]), json)
            }
        } else if a == "--json"@ {
            add_spec(rest.drop_first(), words, body, true)
        } else if a.len() >= 2 && a[0] == '-' && a[1] == '-' {
            Err("unknown option for `add`: "@ + debug_quoted(a))
        } else {
            add_spec(rest.drop_first(), words.push(a), body, json)
        }
    }
}

/// Words laid end to end with single spaces.
pub open spec fn spaced(words: Seq<Seq<char>>) -> Seq<char>
    decreases words.len(),
{
    if words.len() == 0 {
        Seq::empty()
    } else if words.len() == 1 {
        words[0]
    } else {
        spaced(words.drop_last()) + seq![' '] + words.last()
    }
}

/// What the command line means.
pub open spec fn parse_spec(args: Seq<Seq<char>>) -> Result<CommandView, Seq<char>> {
    if args.len() == 0 {
        Ok(CommandView::Gui)
    } else {
        let first = args[0];
        let rest = args.drop_first();
        if first == "-h"@ || first == "--help"@ || first == "help"@ {
            Ok(CommandView::Help)
        } else if first == "-V"@ || first == "--version"@ || first == "version"@ {
            Ok(CommandView::Version)
        } else if first == "list"@ || first == "ls"@ {
            match list_spec(rest) {
                Ok((json, all, count)) => Ok(CommandView::List { json, all, count }),
                Err(e) => Err(e),
            }
        } else if first == "add"@ || first == "new"@ {
            match add_spec(rest, Seq::empty(), None, false) {
                Err(e) => Err(e),
                Ok((words, body, json)) => {
                    let title = trim(spaced(words));
                    if title.len() == 0 {
                        Err("`add` needs some text"@)
                    } else {
                        Ok(CommandView::Add { title, body, json })
                    }
                },
            }
        } else if first == "done"@ || first == "complete"@ {
            match id_list_spec(rest) {
                Ok(ids) => Ok(CommandView::SetDone { ids, done: true }),
                Err(e) => Err(e),
            }
        } else if first == "undone"@ || first == "uncomplete"@ {
            match id_list_spec(rest) {
                Ok(ids) => Ok(CommandView::SetDone { ids, done: false }),
                Err(e) => Err(e),
            }
        } else if first == "rm"@ || first == "remove"@ || first == "delete"@ {
            match id_list_spec(rest) {
                Ok(ids) => Ok(CommandView::Remove { ids }),
                Err(e) => Err(e),
            }
        } else {
            Err("unknown command "@ + debug_quoted(first))
        }
    }
}

/// The views of a list of arguments.
pub open spec fn arg_views(args: Seq<String>) -> Seq<Seq<char>> {
    args.map_values(|a: String| a@)
}

fn message(lit: &str) -> (r: String)
    ensures
        r@ == lit@,
{
    lit.to_owned()
}

/// `prefix` followed by the quoted argument.
fn quoted_after(prefix: &str, arg: &str) -> (r: String)
    ensures
        r@ == prefix@ + debug_quoted(arg@),
{
    let mut v = chars_of(prefix);
    let q = debug_quote(arg);
    extend_str(&mut v, q.as_str());
    string_of(v.as_slice())
}

fn parse_ids(rest: &[String]) -> (r: Result<Vec<u64>, String>)
    ensures
        match id_list_spec(arg_views(rest@)) {
            Ok(ids) => r matches Ok(v) && v@ == ids,
            Err(e) => r matches Err(m) && m@ == e,
        },
{
    if rest.len() == 0 {
        return Err(message("expected at least one id (get them from `flodo list --json`)"));
    }
    let ghost args = arg_views(rest@);
    let mut ids: Vec<u64> = Vec::new();
    let mut i: usize = 0;
    while i < rest.len()
        invariant
            i <= rest.len(),
            args == arg_views(rest@),
            ids_spec(args.take(i as int)) == Ok::<Seq<u64>, Seq<char>>(ids@),
        decreases rest.len() - i,
    {
        proof {
            assert(args.take(i + 1).drop_last() =~= args.take(i as int));
            assert(args.take(i + 1).last() == rest@[i as int]@);
        }
        match parse_u64(rest[i].as_str()) {
            Some(id) => ids.push(id),
            None => {
                let mut v = chars_of(debug_quote(rest[i].as_str()).as_str());
                extend_str(&mut v, " is not a valid id");
                proof {
                    lemma_ids_error_sticks(args, i + 1);
                }
                return Err(string_of(v.as_slice()));
            },
        }
        i += 1;
    }
    proof {
        assert(args.take(rest.len() as int) =~= args);
    }
    Ok(ids)
}

/// Once an argument fails to parse, every longer prefix fails the same way.
proof fn lemma_ids_error_sticks(args: Seq<Seq<char>>, n: int)
    requires
        0 < n <= args.len(),
        ids_spec(args.take(n)) is Err,
    ensures
        ids_spec(args) == ids_spec(args.take(n)),
    decreases args.len() - n,
{
    if n < args.len() {
        assert(args.take(n + 1).drop_last() =~= args.take(n));
        lemma_ids_error_sticks(args, n + 1);
    } else {
        assert(args.take(n) =~= args);
    }
}

proof fn lemma_list_error_sticks(args: Seq<Seq<char>>, n: int)
    requires
        0 < n <= args.len(),
        list_spec(args.take(n)) is Err,
    ensures
        list_spec(args) == list_spec(args.take(n)),
    decreases args.len() - n,
{
    if n < args.len() {
        assert(args.take(n + 1).drop_last() =~= args.take(n));
        lemma_list_error_sticks(args, n + 1);
    } else {
        assert(args.take(n) =~= args);
    }
}

fn parse_list(rest: &[String]) -> (r: Result<Command, String>)
    ensures
        match list_spec(arg_views(rest@)) {
            Ok((json, all, count)) => r matches Ok(c) && c@ == (CommandView::List {
                json,
                all,
                count,
            }),
            Err(e) => r matches Err(m) && m@ == e,
        },
{
    let ghost args = arg_views(rest@);
    let mut json = false;
    let mut all = false;
    let mut count = false;
    let mut i: usize = 0;
    while i < rest.len()
        invariant
            i <= rest.len(),
            args == arg_views(rest@),
            list_spec(args.take(i as int)) == Ok::<(bool, bool, bool), Seq<char>>(
                (json, all, count),
            ),
        decreases rest.len() - i,
    {
        proof {
            assert(args.take(i + 1).drop_last() =~= args.take(i as int));
            assert(args.take(i + 1).last() == rest@[i as int]@);
        }
        let a = rest[i].as_str();
        if is(a, "--json") {
            json = true;
        } else if is(a, "--all") {
            all = true;
        } else if is(a, "--count") {
            count = true;
        } else {
            proof {
                lemma_list_error_sticks(args, i + 1);
            }
            return Err(quoted_after("unknown option for `list`: ", a));
        }
        i += 1;
    }
    proof {
        assert(args.take(rest.len() as int) =~= args);
    }
    Ok(Command::List { json, all, count })
}

fn parse_add(rest: &[String]) -> (r: Result<Command, String>)
    ensures
        match add_spec(arg_views(rest@), Seq::empty(), None, false) {
            Err(e) => r matches Err(m) && m@ == e,
            Ok((words, body, json)) => {
                let title = trim(spaced(words));
                if title.len() == 0 {
                    r matches Err(m) && m@ == "`add` needs some text"@
                } else {
                    r matches Ok(c) && c@ == (CommandView::Add { title, body, json })
                }
            },
        },
{
    let ghost args = arg_views(rest@);
    let mut words: Vec<char> = Vec::new();
    let ghost mut ws: Seq<Seq<char>> = Seq::empty();
    let mut body: Option<String> = None;
    let mut json = false;
    let mut any_word = false;
    let mut i: usize = 0;
    proof {
        assert(args.skip(0) =~= args);
    }
    while i < rest.len()
        invariant
            i <= rest.len(),
            args == arg_views(rest@),
            any_word == (ws.len() > 0),
            words@ == spaced(ws),
            add_spec(args.skip(i as int), ws, opt_view(body), json) == add_spec(
                args,
                Seq::empty(),
                None,
                false,
            ),
        decreases rest.len() - i,
    {
        let ghost tail = args.skip(i as int);
        proof {
            assert(tail[0] == rest@[i as int]@);
            assert(tail.drop_first() =~= args.skip(i + 1));
        }
        let a = rest[i].as_str();
        if is(a, "--body") {
            if i + 1 >= rest.len() {
                return Err(message("`--body` needs a value"));
            }
            proof {
                assert(tail.skip(2) =~= args.skip(i + 2));
                assert(tail[1] == rest@[i + 1]@);
            }
            body = Some(rest[i + 1].clone());
            i += 2;
        } else if is(a, "--json") {
            json = true;
            i += 1;
        } else if starts_with_dashes(a) {
            return Err(quoted_after("unknown option for `add`: ", a));
        } else {
            if any_word {
                words.push(' ');
            }
            any_word = true;
            extend_str(&mut words, a);
            proof {
                if ws.len() == 0 {
                    assert(spaced(ws.push(a@)) =~= a@);
                } else {
                    assert(ws.push(a@).drop_last() =~= ws);
                }
                ws = ws.push(a@);
            }
            i += 1;
        }
    }
    proof {
        assert(args.skip(i as int) =~= Seq::<Seq<char>>::empty());
    }
    let title = trimmed(words.as_slice());
    if title.len() == 0 {
        return Err(message("`add` needs some text"));
    }
    Ok(Command::Add { title: string_of(title.as_slice()), body, json })
}

/// The view of an optional string.
pub open spec fn opt_view(o: Option<String>) -> Option<Seq<char>> {
    match o {
        Some(s) => Some(s@),
        None => None,
    }
}

/// Reads the command line (without the program name).
pub fn parse(args: &[String]) -> (r: Result<Command, String>)
    ensures
        match parse_spec(arg_views(args@)) {
            Ok(c) => r matches Ok(cmd) && cmd@ == c,
            Err(e) => r matches Err(m) && m@ == e,
        },
{
    if args.len() == 0 {
        return Ok(Command::Gui);
    }
    let first = args[0].as_str();
    let rest = slice_rest(args);
    proof {
        assert(arg_views(args@)[0] == first@);
        assert(arg_views(args@).drop_first() =~= arg_views(rest@));
    }
    if is(first, "-h") || is(first, "--help") || is(first, "help") {
        return Ok(Command::Help);
    }
    if is(first, "-V") || is(first, "--version") || is(first, "version") {
        return Ok(Command::Version);
    }
    if is(first, "list") || is(first, "ls") {
        return parse_list(rest);
    }
    if is(first, "add") || is(first, "new") {
        return parse_add(rest);
    }
    if is(first, "done") || is(first, "complete") {
        return match parse_ids(rest) {
            Ok(ids) => Ok(Command::SetDone { ids, done: true }),
            Err(e) => Err(e),
        };
    }
    if is(first, "undone") || is(first, "uncomplete") {
        return match parse_ids(rest) {
            Ok(ids) => Ok(Command::SetDone { ids, done: false }),
            Err(e) => Err(e),
        };
    }
    if is(first, "rm") || is(first, "remove") || is(first, "delete") {
        return match parse_ids(rest) {
            Ok(ids) => Ok(Command::Remove { ids }),
            Err(e) => Err(e),
        };
    }
    Err(quoted_after("unknown command ", first))
}

fn slice_rest(args: &[String]) -> (r: &[String])
    requires
        args.len() > 0,
    ensures
        r@ == args@.drop_first(),
{
    let (_, rest) = args.split_at(1);
    assert(rest@ =~= args@.drop_first());
    rest
}

// ------------------------------------------------------------ output

/// The command line's output contract: a separate type from [`Todo`] so
/// internal fields never leak into it.
#[derive(Debug, Clone, PartialEq)]
pub struct Record {
    pub id: u64,
    pub title: String,
    pub body: String,
    pub done: bool,
    pub created_at: i64,
    pub completed_at: Option<i64>,
}

/// The record a to-do is listed as.
pub open spec fn record_of(t: Todo) -> Record {
    Record {
        id: t.id,
        title: t.title,
        body: t.body,
        done: t.done,
        created_at: t.created_at,
        completed_at: t.completed_at,
    }
}

impl Record {
    /// The record a to-do is listed as.
    pub fn from_todo(t: &Todo) -> (r: Record)
        ensures
            r == record_of(*t),
    {
        Record {
            id: t.id,
            title: t.title.clone(),
            body: t.body.clone(),
            done: t.done,
            created_at: t.created_at,
            completed_at: t.completed_at,
        }
    }
}

/// The records listed: every to-do, or only open ones unless `all`.
pub open spec fn records_spec(todos: Seq<Todo>, all: bool) -> Seq<Record>
    decreases todos.len(),
{
    if todos.len() == 0 {
        Seq::empty()
    } else {
        let rest = records_spec(todos.drop_last(), all);
        if all || !todos.last().done {
            rest.push(record_of(todos.last()))
        } else {
            rest
        }
    }
}

pub fn records(store: &Store, all: bool) -> (r: Vec<Record>)
    ensures
        r@ == records_spec(store.todos@, all),
{
    let mut out: Vec<Record> = Vec::new();
    let mut i: usize = 0;
    while i < store.todos.len()
        invariant
            i <= store.todos@.len(),
            out@ == records_spec(store.todos@.take(i as int), all),
        decreases store.todos@.len() - i,
    {
        proof {
            assert(store.todos@.take(i + 1).drop_last() =~= store.todos@.take(i as int));
        }
        if all || !store.todos[i].done {
            out.push(Record::from_todo(&store.todos[i]));
        }
        i += 1;
    }
    proof {
        assert(store.todos@.take(store.todos@.len() as int) =~= store.todos@);
    }
    out
}

/// Splitting on `\n`, one character at a time: the lines finished so far
/// (each without its `\n` or a `\r` before it), and the line being read.
pub open spec fn lines_fold(s: Seq<char>) -> (Seq<Seq<char>>, Seq<char>)
    decreases s.len(),
{
    if s.len() == 0 {
        (Seq::empty(), Seq::empty())
    } else {
        let (done, cur) = lines_fold(s.drop_last());
        if s.last() == '\n' {
            (done.push(strip_cr(cur)), Seq::empty())
        } else {
            (done, cur.push(s.last()))
        }
    }
}

/// A line without the `\r` of a `\r\n` ending.
pub open spec fn strip_cr(l: Seq<char>) -> Seq<char> {
    if l.len() > 0 && l.last() == '\r' {
        l.drop_last()
    } else {
        l
    }
}

/// The lines of a text, as `str::lines` yields them: the last line needs no
/// line ending, and text ending in one has no empty line after it.
pub open spec fn lines(s: Seq<char>) -> Seq<Seq<char>> {
    let (done, cur) = lines_fold(s);
    if cur.len() > 0 {
        done.push(cur)
    } else {
        done
    }
}

/// Each non-blank line indented six spaces, one per line.
pub open spec fn indented(ls: Seq<Seq<char>>) -> Seq<char>
    decreases ls.len(),
{
    if ls.len() == 0 {
        Seq::empty()
    } else {
        let rest = indented(ls.drop_last());
        if has_ink(ls.last()) {
            rest + "      "@ + ls.last() + seq!['\n']
        } else {
            rest
        }
    }
}

/// How one record is listed: a markdown checkbox, the title and the id,
/// then the body's non-blank lines indented beneath.
pub open spec fn record_text(r: Record) -> Seq<char> {
    "- ["@ + seq![if r.done { 'x' } else { ' ' }] + "] "@ + r.title@ + "  ("@ + decimal(
        r.id as nat,
    ) + ")\n"@ + indented(lines(r.body@))
}

/// Every record's listing in order.
pub open spec fn records_text(rs: Seq<Record>) -> Seq<char>
    decreases rs.len(),
{
    if rs.len() == 0 {
        Seq::empty()
    } else {
        records_text(rs.drop_last()) + record_text(rs.last())
    }
}

/// The human-readable listing, which says so when there is nothing.
pub open spec fn render_text_spec(rs: Seq<Record>) -> Seq<char> {
    if rs.len() == 0 {
        "No to-dos.\n"@
    } else {
        records_text(rs)
    }
}

/// The lines of `v`.
pub fn split_lines(v: &[char]) -> (r: Vec<Vec<char>>)
    ensures
        r@.len() == lines(v@).len(),
        forall|i: int| 0 <= i < r@.len() ==> (#[trigger] r@[i])@ == lines(v@)[i],
{
    let mut done: Vec<Vec<char>> = Vec::new();
    let mut cur: Vec<char> = Vec::new();
    let mut i: usize = 0;
    while i < v.len()
        invariant
            i <= v.len(),
            done@.len() == lines_fold(v@.take(i as int)).0.len(),
            forall|k: int|
                0 <= k < done@.len() ==> (#[trigger] done@[k])@ == lines_fold(
                    v@.take(i as int),
                ).0[k],
            cur@ == lines_fold(v@.take(i as int)).1,
        decreases v.len() - i,
    {
        let c = v[i];
        proof {
            assert(v@.take(i + 1).drop_last() =~= v@.take(i as int));
            assert(v@.take(i + 1).last() == c);
        }
        if c == '\n' {
            let mut line = cur;
            let n = line.len();
            if n > 0 && line[n - 1] == '\r' {
                line.pop();
                proof {
                    assert(line@ =~= strip_cr(lines_fold(v@.take(i as int)).1));
                }
            }
            done.push(line);
            cur = Vec::new();
        } else {
            cur.push(c);
        }
        i += 1;
    }
    assert(v@.take(v.len() as int) =~= v@);
    if cur.len() > 0 {
        done.push(cur);
    }
    done
}

fn push_record(out: &mut Vec<char>, r: &Record)
    ensures
        final(out)@ == old(out)@ + record_text(*r),
{
    extend_str(out, "- [");
    out.push(if r.done {
        'x'
    } else {
        ' '
    });
    extend_str(out, "] ");
    extend_str(out, r.title.as_str());
    extend_str(out, "  (");
    let d = decimal_of(r.id);
    extend(out, d.as_slice());
    extend_str(out, ")\n");
    let ghost head = out@;
    let body = chars_of(r.body.as_str());
    let ls = split_lines(body.as_slice());
    let ghost lsv = lines(r.body@);
    let mut k: usize = 0;
    while k < ls.len()
        invariant
            k <= ls@.len(),
            ls@.len() == lsv.len(),
            forall|i: int| 0 <= i < ls@.len() ==> (#[trigger] ls@[i])@ == lsv[i],
            out@ == head + indented(lsv.take(k as int)),
        decreases ls@.len() - k,
    {
        proof {
            assert(lsv.take(k + 1).drop_last() =~= lsv.take(k as int));
            assert(lsv.take(k + 1).last() == ls@[k as int]@);
        }
        if any_ink(ls[k].as_slice()) {
            extend_str(out, "      ");
            extend(out, ls[k].as_slice());
            out.push('\n');
        }
        k += 1;
        proof {
            assert(out@ =~= head + indented(lsv.take(k as int)));
        }
    }
    proof {
        assert(lsv.take(ls@.len() as int) =~= lsv);
        assert(out@ =~= old(out)@ + record_text(*r));
    }
}

/// Human-readable listing. Checkbox markers keep it unambiguous and make the
/// output valid markdown.
pub fn render_text(records: &[Record]) -> (s: String)
    ensures
        s@ == render_text_spec(records@),
{
    if records.len() == 0 {
        return message("No to-dos.\n");
    }
    let mut out: Vec<char> = Vec::new();
    let mut i: usize = 0;
    while i < records.len()
        invariant
            i <= records.len(),
            out@ == records_text(records@.take(i as int)),
        decreases records.len() - i,
    {
        proof {
            assert(records@.take(i + 1).drop_last() =~= records@.take(i as int));
        }
        push_record(&mut out, &records[i]);
        i += 1;
    }
    proof {
        assert(records@.take(records.len() as int) =~= records@);
    }
    string_of(out.as_slice())
}

// ------------------------------------------------------------ editing

/// The ids in `ids` that no to-do has, in the order given.
pub open spec fn unknown_ids(todos: Seq<Todo>, ids: Seq<u64>) -> Seq<u64>
    decreases ids.len(),
{
    if ids.len() == 0 {
        Seq::empty()
    } else {
        let rest = unknown_ids(todos, ids.drop_last());
        if first_index(todos, ids.last()) is None {
            rest.push(ids.last())
        } else {
            rest
        }
    }
}

/// Numbers in decimal, separated by `, `.
pub open spec fn comma_list(ns: Seq<u64>) -> Seq<char>
    decreases ns.len(),
{
    if ns.len() == 0 {
        Seq::empty()
    } else if ns.len() == 1 {
        decimal(ns[0] as nat)
    } else {
        comma_list(ns.drop_last()) + ", "@ + decimal(ns.last() as nat)
    }
}

/// What is reported when some ids match nothing.
pub open spec fn missing_message(unknown: Seq<u64>) -> Seq<char> {
    "no to-do with id "@ + comma_list(unknown) + " — nothing was changed"@
}

/// Checks that every id names a to-do, reporting all that do not.
pub fn missing(store: &Store, ids: &[u64]) -> (r: Result<(), String>)
    ensures
        unknown_ids(store.todos@, ids@).len() == 0 ==> r is Ok,
        unknown_ids(store.todos@, ids@).len() > 0 ==> (r matches Err(m) && m@ == missing_message(
            unknown_ids(store.todos@, ids@),
        )),
{
    let mut list: Vec<char> = Vec::new();
    let mut n: usize = 0;
    let ghost mut unknown: Seq<u64> = Seq::empty();
    let mut i: usize = 0;
    while i < ids.len()
        invariant
            i <= ids.len(),
            unknown == unknown_ids(store.todos@, ids@.take(i as int)),
            n == unknown.len(),
            n <= i,
            list@ == comma_list(unknown),
        decreases ids.len() - i,
    {
        proof {
            assert(ids@.take(i + 1).drop_last() =~= ids@.take(i as int));
        }
        let id = ids[i];
        if store.get(id).is_none() {
            if n > 0 {
                extend_str(&mut list, ", ");
            }
            let d = decimal_of(id);
            extend(&mut list, d.as_slice());
            proof {
                if n == 0 {
                    assert(comma_list(unknown.push(id)) =~= decimal(id as nat));
                } else {
                    assert(unknown.push(id).drop_last() =~= unknown);
                }
                unknown = unknown.push(id);
            }
            n += 1;
        }
        i += 1;
    }
    proof {
        assert(ids@.take(ids.len() as int) =~= ids@);
    }
    if n == 0 {
        Ok(())
    } else {
        let mut m = chars_of("no to-do with id ");
        extend(&mut m, list.as_slice());
        extend_str(&mut m, " — nothing was changed");
        Err(string_of(m.as_slice()))
    }
}

/// The list after each id in turn has its first to-do taken out.
pub open spec fn removed_each(todos: Seq<Todo>, ids: Seq<u64>) -> Seq<Todo>
    decreases ids.len(),
{
    if ids.len() == 0 {
        todos
    } else {
        let before = removed_each(todos, ids.drop_last());
        match first_index(before, ids.last()) {
            Some(i) => before.remove(i),
            None => before,
        }
    }
}

/// Deletes every listed to-do, or nothing at all when any id is unknown.
pub fn remove_all(store: &mut Store, ids: &[u64]) -> (r: Result<(), String>)
    ensures
        unknown_ids(old(store).todos@, ids@).len() == 0 ==> r is Ok && final(store).todos@
            == removed_each(old(store).todos@, ids@),
        unknown_ids(old(store).todos@, ids@).len() > 0 ==> (r matches Err(m) && m@
            == missing_message(unknown_ids(old(store).todos@, ids@)) && *final(store) == *old(
            store,
        )),
        final(store).version == old(store).version,
        final(store).extra == old(store).extra,
{
    match missing(store, ids) {
        Err(e) => return Err(e),
        Ok(()) => {},
    }
    let mut i: usize = 0;
    while i < ids.len()
        invariant
            i <= ids.len(),
            store.todos@ == removed_each(old(store).todos@, ids@.take(i as int)),
            store.version == old(store).version,
            store.extra == old(store).extra,
        decreases ids.len() - i,
    {
        proof {
            assert(ids@.take(i + 1).drop_last() =~= ids@.take(i as int));
        }
        let _ = store.remove(ids[i]);
        i += 1;
    }
    proof {
        assert(ids@.take(ids.len() as int) =~= ids@);
    }
    Ok(())
}

/// What marking a to-do done (or open) does to it: one already in that
/// state is left exactly as it was; any other is toggled, which stamps when
/// it was finished or forgets it.
pub open spec fn marked(before: Todo, after: Todo, done: bool) -> bool {
    if before.done == done {
        after == before
    } else {
        exists|now: i64| after == crate::model::toggled(before, now)
    }
}

/// Marks every listed to-do done (or open), or changes nothing when any id
/// is unknown. A to-do already in the wanted state keeps its timestamps.
pub fn set_done(store: &mut Store, ids: &[u64], done: bool) -> (r: Result<(), String>)
    ensures
        unknown_ids(old(store).todos@, ids@).len() > 0 ==> (r matches Err(m) && m@
            == missing_message(unknown_ids(old(store).todos@, ids@)) && *final(store) == *old(
            store,
        )),
        unknown_ids(old(store).todos@, ids@).len() == 0 ==> r is Ok,
        final(store).todos@.len() == old(store).todos@.len(),
        forall|j: int|
            0 <= j < old(store).todos@.len() ==> (#[trigger] final(store).todos@[j]).id == old(
                store,
            ).todos@[j].id,
        r is Ok ==> forall|k: int|
            0 <= k < ids@.len() ==> #[trigger] final(store).todos@[first_index(
                old(store).todos@,
                ids@[k],
            )->0].done == done,
        r is Ok ==> forall|k: int|
            #![trigger ids@[k]]
            0 <= k < ids@.len() ==> marked(
                old(store).todos@[first_index(old(store).todos@, ids@[k])->0],
                final(store).todos@[first_index(old(store).todos@, ids@[k])->0],
                done,
            ),
        forall|j: int|
            0 <= j < old(store).todos@.len() && (forall|k: int|
                0 <= k < ids@.len() ==> first_index(old(store).todos@, #[trigger] ids@[k]) != Some(
                    j,
                )) ==> final(store).todos@[j] == old(store).todos@[j],
        final(store).version == old(store).version,
        final(store).extra == old(store).extra,
{
    match missing(store, ids) {
        Err(e) => return Err(e),
        Ok(()) => {},
    }
    proof {
        lemma_no_unknown(old(store).todos@, ids@);
    }
    let mut i: usize = 0;
    while i < ids.len()
        invariant
            i <= ids.len(),
            store.todos@.len() == old(store).todos@.len(),
            forall|j: int|
                0 <= j < old(store).todos@.len() ==> (#[trigger] store.todos@[j]).id == old(
                    store,
                ).todos@[j].id,
            forall|k: int|
                0 <= k < ids@.len() ==> first_index(old(store).todos@, #[trigger] ids@[k]) is Some,
            forall|k: int|
                0 <= k < i ==> #[trigger] store.todos@[first_index(
                    old(store).todos@,
                    ids@[k],
                )->0].done == done,
            forall|k: int|
                #![trigger ids@[k]]
                0 <= k < i ==> marked(
                    old(store).todos@[first_index(old(store).todos@, ids@[k])->0],
                    store.todos@[first_index(old(store).todos@, ids@[k])->0],
                    done,
                ),
            forall|j: int|
                0 <= j < old(store).todos@.len() && (forall|k: int|
                    0 <= k < i ==> first_index(old(store).todos@, #[trigger] ids@[k]) != Some(j))
                    ==> store.todos@[j] == old(store).todos@[j],
            store.version == old(store).version,
            store.extra == old(store).extra,
        decreases ids.len() - i,
    {
        let id = ids[i];
        let ghost before = store.todos@;
        proof {
            lemma_same_ids_same_index(old(store).todos@, before, id);
            lemma_first_index(old(store).todos@, id);
        }
        let ghost p = first_index(old(store).todos@, id)->0;
        let current = match store.get(id) {
            Some(t) => t.done,
            None => done,
        };
        assert(current == before[p].done);
        let ghost was_listed = exists|k: int| 0 <= k < i && ids@[k] == id;
        proof {
            if !was_listed {
                assert forall|k: int| 0 <= k < i implies first_index(
                    old(store).todos@,
                    #[trigger] ids@[k],
                ) != Some(p) by {
                    lemma_first_index(old(store).todos@, ids@[k]);
                    assert(ids@[k] != id);
                }
                assert(before[p] == old(store).todos@[p]);
            }
        }
        if current != done {
            store.toggle(id);
            proof {
                let now = choose|now: i64| store.todos@ == Store::toggled_list(before, id, now);
                assert(store.todos@ == before.update(p, crate::model::toggled(before[p], now)));
                if was_listed {
                    let k0 = choose|k: int| 0 <= k < i && ids@[k] == id;
                    assert(before[p].done == done);
                }
                assert(before[p] == old(store).todos@[p]);
                assert(store.todos@[p] == crate::model::toggled(old(store).todos@[p], now));
            }
        }
        proof {
            assert(store.todos@[p].done == done);
            if !was_listed {
                assert(before[p] == old(store).todos@[p]);
            } else {
                let k0 = choose|k: int| 0 <= k < i && ids@[k] == id;
                assert(marked(old(store).todos@[p], before[p], done));
            }
            assert(marked(old(store).todos@[p], store.todos@[p], done));
            assert forall|k: int| #![trigger ids@[k]] 0 <= k < i + 1 implies marked(
                old(store).todos@[first_index(old(store).todos@, ids@[k])->0],
                store.todos@[first_index(old(store).todos@, ids@[k])->0],
                done,
            ) by {
                if ids@[k] != id {
                    let q = first_index(old(store).todos@, ids@[k])->0;
                    lemma_first_index(old(store).todos@, ids@[k]);
                    assert(q != p);
                    assert(store.todos@[q] == before[q]);
                }
            }
            assert(forall|j: int| 0 <= j < before.len() && j != p ==> store.todos@[j] == before[j]);
            assert forall|k: int| 0 <= k < i + 1 implies #[trigger] store.todos@[first_index(
                old(store).todos@,
                ids@[k],
            )->0].done == done by {
                if k == i {
                    assert(ids@[k] == id);
                } else {
                    let q = first_index(old(store).todos@, ids@[k])->0;
                    lemma_first_index(old(store).todos@, ids@[k]);
                    if q != p {
                        assert(store.todos@[q] == before[q]);
                    }
                }
            }
        }
        i += 1;
    }
    Ok(())
}

proof fn lemma_no_unknown(todos: Seq<Todo>, ids: Seq<u64>)
    requires
        unknown_ids(todos, ids).len() == 0,
    ensures
        forall|k: int| 0 <= k < ids.len() ==> first_index(todos, #[trigger] ids[k]) is Some,
    decreases ids.len(),
{
    if ids.len() > 0 {
        let p = ids.drop_last();
        if first_index(todos, ids.last()) is None {
            assert(unknown_ids(todos, ids).len() == unknown_ids(todos, p).len() + 1);
        }
        lemma_no_unknown(todos, p);
        assert forall|k: int| 0 <= k < ids.len() implies first_index(
            todos,
            #[trigger] ids[k],
        ) is Some by {
            if k < p.len() {
                assert(ids[k] == p[k]);
            }
        }
    }
}

/// Lists holding the same ids in the same places find an id at the same
/// place.
pub proof fn lemma_same_ids_same_index(a: Seq<Todo>, b: Seq<Todo>, id: u64)
    requires
        a.len() == b.len(),
        forall|j: int| 0 <= j < a.len() ==> (#[trigger] b[j]).id == a[j].id,
    ensures
        first_index(a, id) == first_index(b, id),
    decreases a.len(),
{
    if a.len() > 0 {
        lemma_same_ids_same_index(a.drop_last(), b.drop_last(), id);
    }
}

/// Adds a to-do with an optional body, returning its id.
pub fn add_todo(store: &mut Store, title: &str, body: Option<String>) -> (id: u64)
    requires
        forall|j: int| 0 <= j < old(store).todos@.len() ==> (#[trigger] old(store).todos@[j]).id
            < u64::MAX,
    ensures
        final(store).todos@.len() == old(store).todos@.len() + 1,
        final(store).todos@.drop_last() == old(store).todos@,
        final(store).todos@.last().id == id,
        final(store).todos@.last().title@ == title@,
        final(store).todos@.last().body@ == (match body {
            Some(b) => b@,
            None => Seq::<char>::empty(),
        }),
        !final(store).todos@.last().done,
        id >= crate::model::id_ceiling(old(store).todos@),
{
    let id = store.add(title);
    if let Some(b) = body {
        let mut t = store.todos.pop().unwrap();
        t.body = b;
        store.todos.push(t);
        proof {
            assert(store.todos@.drop_last() =~= old(store).todos@);
        }
    }
    id
}

} // verus!

verus! {

/// Listing shows every to-do with `--all`, and otherwise exactly the open
/// ones, in list order.
pub proof fn law_listing_hides_only_done(todos: Seq<Todo>)
    ensures
        records_spec(todos, true) == todos.map_values(|t: Todo| record_of(t)),
        records_spec(todos, false) == todos.filter(|t: Todo| !t.done).map_values(
            |t: Todo| record_of(t),
        ),
    decreases todos.len(),
{
    if todos.len() == 0 {
        assert(todos.map_values(|t: Todo| record_of(t)) =~= Seq::<Record>::empty());
        assert(todos.filter(|t: Todo| !t.done) =~= Seq::<Todo>::empty());
        assert(todos.filter(|t: Todo| !t.done).map_values(|t: Todo| record_of(t))
            =~= Seq::<Record>::empty());
    } else {
        let p = todos.drop_last();
        let last = todos.last();
        law_listing_hides_only_done(p);
        assert(p.push(last) =~= todos);
        assert(todos.map_values(|t: Todo| record_of(t)) =~= p.map_values(
            |t: Todo| record_of(t),
        ).push(record_of(last)));
        p.lemma_filter_push(last, |t: Todo| !t.done);
        if !last.done {
            assert(p.filter(|t: Todo| !t.done).push(last).map_values(|t: Todo| record_of(t))
                =~= p.filter(|t: Todo| !t.done).map_values(|t: Todo| record_of(t)).push(
                record_of(last),
            ));
        }
    }
}

} // verus!

verus! {

/// One of the three flags `list` takes.
pub open spec fn is_list_flag(a: Seq<char>) -> bool {
    a == "--json"@ || a == "--all"@ || a == "--count"@
}

/// `list` takes its flags in any order: it succeeds exactly when every
/// argument is one of its flags, and each flag is on exactly when it appears.
pub proof fn law_list_flags_in_any_order(rest: Seq<Seq<char>>)
    ensures
        (list_spec(rest) is Ok) == (forall|i: int| 0 <= i < rest.len() ==> is_list_flag(#[trigger] rest[i])),
        list_spec(rest) matches Ok((json, all, count)) ==> json == rest.contains("--json"@) && all
            == rest.contains("--all"@) && count == rest.contains("--count"@),
    decreases rest.len(),
{
    reveal_strlit("--json");
    reveal_strlit("--all");
    reveal_strlit("--count");
    if rest.len() > 0 {
        let p = rest.drop_last();
        law_list_flags_in_any_order(p);
        assert forall|x: Seq<char>| rest.contains(x) == (p.contains(x) || rest.last() == x) by {
            if rest.contains(x) {
                let i = choose|i: int| 0 <= i < rest.len() && rest[i] == x;
                if i < p.len() {
                    assert(p[i] == x);
                }
            }
            if p.contains(x) {
                let i = choose|i: int| 0 <= i < p.len() && p[i] == x;
                assert(rest[i] == x);
            }
            if rest.last() == x {
                assert(rest[rest.len() - 1] == x);
            }
        }
        assert("--json"@.len() == 6 && "--all"@.len() == 5 && "--count"@.len() == 7);
        let f = (rest.contains("--json"@), rest.contains("--all"@), rest.contains("--count"@));
        assert(rest.contains("--json"@) == (p.contains("--json"@) || rest.last() == "--json"@));
        assert(rest.contains("--all"@) == (p.contains("--all"@) || rest.last() == "--all"@));
        assert(rest.contains("--count"@) == (p.contains("--count"@) || rest.last() == "--count"@));
        assert((forall|i: int| 0 <= i < rest.len() ==> is_list_flag(#[trigger] rest[i])) == ((
        forall|i: int| 0 <= i < p.len() ==> is_list_flag(#[trigger] p[i])) && is_list_flag(
            rest.last(),
        ))) by {
            if forall|i: int| 0 <= i < p.len() ==> is_list_flag(#[trigger] p[i]) {
                if is_list_flag(rest.last()) {
                    assert forall|i: int| 0 <= i < rest.len() implies is_list_flag(
                        #[trigger] rest[i],
                    ) by {
                        if i < p.len() {
                            assert(rest[i] == p[i]);
                        }
                    }
                }
            }
            if forall|i: int| 0 <= i < rest.len() ==> is_list_flag(#[trigger] rest[i]) {
                assert forall|i: int| 0 <= i < p.len() implies is_list_flag(#[trigger] p[i]) by {
                    assert(rest[i] == p[i]);
                }
                assert(is_list_flag(rest[rest.len() - 1]));
            }
        }
    }
}

/// An id list is accepted exactly when it is not empty and every argument
/// spells an id, and then it holds those ids in order.
pub proof fn law_id_lists(rest: Seq<Seq<char>>)
    ensures
        (id_list_spec(rest) is Ok) == (rest.len() > 0 && forall|i: int|
            0 <= i < rest.len() ==> parse_u64_spec(#[trigger] rest[i]) is Some),
        id_list_spec(rest) matches Ok(ids) ==> ids.len() == rest.len() && forall|i: int|
            0 <= i < rest.len() ==> Some(#[trigger] ids[i]) == parse_u64_spec(rest[i]),
{
    lemma_ids_spec(rest);
}

proof fn lemma_ids_spec(rest: Seq<Seq<char>>)
    ensures
        (ids_spec(rest) is Ok) == (forall|i: int|
            0 <= i < rest.len() ==> parse_u64_spec(#[trigger] rest[i]) is Some),
        ids_spec(rest) matches Ok(ids) ==> ids.len() == rest.len() && forall|i: int|
            0 <= i < rest.len() ==> Some(#[trigger] ids[i]) == parse_u64_spec(rest[i]),
    decreases rest.len(),
{
    if rest.len() > 0 {
        let p = rest.drop_last();
        lemma_ids_spec(p);
        assert forall|i: int| 0 <= i < p.len() implies p[i] == rest[i] by {}
        if forall|i: int| 0 <= i < rest.len() ==> parse_u64_spec(#[trigger] rest[i]) is Some {
            assert forall|i: int| 0 <= i < p.len() implies parse_u64_spec(
                #[trigger] p[i],
            ) is Some by {
                assert(p[i] == rest[i]);
            }
            assert(parse_u64_spec(rest[rest.len() - 1]) is Some);
        }
        if ids_spec(rest) is Ok {
            let ids = ids_spec(p)->Ok_0;
            assert forall|i: int| 0 <= i < rest.len() implies parse_u64_spec(
                #[trigger] rest[i],
            ) is Some by {
                if i < p.len() {
                    assert(p[i] == rest[i]);
                    assert(Some(ids[i]) == parse_u64_spec(p[i]));
                }
            }
        }
    }
}

/// No arguments opens the window; a help or version flag first wins
/// whatever follows; any other first word that is not a command is refused.
pub proof fn law_first_word_decides(args: Seq<Seq<char>>)
    ensures
        args.len() == 0 ==> parse_spec(args) == Ok::<CommandView, Seq<char>>(CommandView::Gui),
        args.len() > 0 && (args[0] == "-h"@ || args[0] == "--help"@ || args[0] == "help"@)
            ==> parse_spec(args) == Ok::<CommandView, Seq<char>>(CommandView::Help),
        args.len() > 0 && (args[0] == "-V"@ || args[0] == "--version"@ || args[0] == "version"@)
            ==> parse_spec(args) == Ok::<CommandView, Seq<char>>(CommandView::Version),
        args.len() > 0 && !is_command(args[0]) ==> parse_spec(args) is Err,
{
    reveal_strlit("-h");
    reveal_strlit("--help");
    reveal_strlit("help");
    reveal_strlit("-V");
    reveal_strlit("--version");
    reveal_strlit("version");
    assert("-V"@ != "-h"@) by {
        assert("-V"@[1] != "-h"@[1]);
    }
    assert("-V"@.len() == 2 && "--help"@.len() == 6 && "help"@.len() == 4);
    assert("--version"@.len() == 9 && "version"@.len() == 7 && "-h"@.len() == 2);
}

/// A first word the command line knows.
pub open spec fn is_command(a: Seq<char>) -> bool {
    ||| a == "-h"@ || a == "--help"@ || a == "help"@
    ||| a == "-V"@ || a == "--version"@ || a == "version"@
    ||| a == "list"@ || a == "ls"@ || a == "add"@ || a == "new"@
    ||| a == "done"@ || a == "complete"@ || a == "undone"@ || a == "uncomplete"@
    ||| a == "rm"@ || a == "remove"@ || a == "delete"@
}

/// An argument spelled like an option: it starts with `--`.
pub open spec fn is_option(a: Seq<char>) -> bool {
    a.len() >= 2 && a[0] == '-' && a[1] == '-'
}

proof fn lemma_add_plain_words(
    rest: Seq<Seq<char>>,
    words: Seq<Seq<char>>,
    body: Option<Seq<char>>,
    json: bool,
)
    requires
        forall|i: int| 0 <= i < rest.len() ==> !is_option(#[trigger] rest[i]),
    ensures
        add_spec(rest, words, body, json) == Ok::<
            (Seq<Seq<char>>, Option<Seq<char>>, bool),
            Seq<char>,
        >((words + rest, body, json)),
    decreases rest.len(),
{
    reveal_strlit("--body");
    reveal_strlit("--json");
    if rest.len() == 0 {
        assert(words + rest =~= words);
    } else {
        let a = rest[0];
        assert(!is_option(a));
        assert("--body"@.len() == 6 && "--body"@[0] == '-' && "--body"@[1] == '-');
        assert("--json"@.len() == 6 && "--json"@[0] == '-' && "--json"@[1] == '-');
        let tail = rest.drop_first();
        assert forall|i: int| 0 <= i < tail.len() implies !is_option(#[trigger] tail[i]) by {
            assert(tail[i] == rest[i + 1]);
        }
        lemma_add_plain_words(tail, words.push(a), body, json);
        assert(words.push(a) + tail =~= words + rest);
    }
}

/// `add` given only plain words, none spelled like an option, takes them
/// as the title, joined by single spaces and trimmed, with no body and no
/// `--json`; it refuses them exactly when that title would be empty.
pub proof fn law_add_plain_words(args: Seq<Seq<char>>)
    requires
        args.len() > 0,
        args[0] == "add"@ || args[0] == "new"@,
        forall|i: int| 1 <= i < args.len() ==> !is_option(#[trigger] args[i]),
    ensures
        trim(spaced(args.drop_first())).len() > 0 ==> parse_spec(args) == Ok::<
            CommandView,
            Seq<char>,
        >(CommandView::Add { title: trim(spaced(args.drop_first())), body: None, json: false }),
        trim(spaced(args.drop_first())).len() == 0 ==> parse_spec(args) is Err,
{
    reveal_strlit("add");
    reveal_strlit("new");
    reveal_strlit("-h");
    reveal_strlit("--help");
    reveal_strlit("help");
    reveal_strlit("-V");
    reveal_strlit("--version");
    reveal_strlit("version");
    reveal_strlit("list");
    reveal_strlit("ls");
    let rest = args.drop_first();
    assert forall|i: int| 0 <= i < rest.len() implies !is_option(#[trigger] rest[i]) by {
        assert(rest[i] == args[i + 1]);
    }
    lemma_add_plain_words(rest, Seq::empty(), None, false);
    assert(Seq::<Seq<char>>::empty() + rest =~= rest);
    assert("add"@.len() == 3 && "new"@.len() == 3 && "-h"@.len() == 2 && "-V"@.len() == 2);
    assert("--help"@.len() == 6 && "help"@.len() == 4 && "--version"@.len() == 9);
    assert("version"@.len() == 7 && "list"@.len() == 4 && "ls"@.len() == 2);
    assert("add"@[0] == 'a' && "new"@[0] == 'n' && "list"@[0] == 'l' && "ls"@[0] == 'l');
}

/// `list` or `ls` followed only by its flags, in any order, lists with
/// each flag on exactly when it appears; any other argument is refused.
pub proof fn law_list_command(args: Seq<Seq<char>>)
    requires
        args.len() > 0,
        args[0] == "list"@ || args[0] == "ls"@,
    ensures
        (parse_spec(args) is Ok) == (forall|i: int|
            1 <= i < args.len() ==> is_list_flag(#[trigger] args[i])),
        parse_spec(args) is Ok ==> parse_spec(args) == Ok::<CommandView, Seq<char>>(
            CommandView::List {
                json: args.drop_first().contains("--json"@),
                all: args.drop_first().contains("--all"@),
                count: args.drop_first().contains("--count"@),
            },
        ),
{
    lemma_not_help_or_version(args[0]);
    let rest = args.drop_first();
    law_list_flags_in_any_order(rest);
    assert((forall|i: int| 1 <= i < args.len() ==> is_list_flag(#[trigger] args[i])) == (forall|
        i: int,
    | 0 <= i < rest.len() ==> is_list_flag(#[trigger] rest[i]))) by {
        if forall|i: int| 1 <= i < args.len() ==> is_list_flag(#[trigger] args[i]) {
            assert forall|i: int| 0 <= i < rest.len() implies is_list_flag(#[trigger] rest[i]) by {
                assert(rest[i] == args[i + 1]);
            }
        }
        if forall|i: int| 0 <= i < rest.len() ==> is_list_flag(#[trigger] rest[i]) {
            assert forall|i: int| 1 <= i < args.len() implies is_list_flag(#[trigger] args[i]) by {
                assert(rest[i - 1] == args[i]);
            }
        }
    }
}

/// `done`/`complete`, `undone`/`uncomplete` and `rm`/`remove`/`delete` take
/// a list of ids: refused when it is empty or any argument is not an id,
/// otherwise the ids in order.
pub proof fn law_id_commands(args: Seq<Seq<char>>)
    requires
        args.len() > 0,
    ensures
        args[0] == "done"@ || args[0] == "complete"@ || args[0] == "undone"@ || args[0]
            == "uncomplete"@ || args[0] == "rm"@ || args[0] == "remove"@ || args[0] == "delete"@
            ==> {
            &&& (parse_spec(args) is Ok) == (args.len() > 1 && forall|i: int|
                1 <= i < args.len() ==> parse_u64_spec(#[trigger] args[i]) is Some)
            &&& parse_spec(args) is Ok ==> exists|ids: Seq<u64>|
                {
                    &&& ids.len() == args.len() - 1
                    &&& (forall|i: int|
                        0 <= i < ids.len() ==> Some(#[trigger] ids[i]) == parse_u64_spec(
                            args[i + 1],
                        ))
                    &&& parse_spec(args) == Ok::<CommandView, Seq<char>>(
                        if args[0] == "done"@ || args[0] == "complete"@ {
                            CommandView::SetDone { ids, done: true }
                        } else if args[0] == "undone"@ || args[0] == "uncomplete"@ {
                            CommandView::SetDone { ids, done: false }
                        } else {
                            CommandView::Remove { ids }
                        },
                    )
                }
        },
{
    let a = args[0];
    if a == "done"@ || a == "complete"@ || a == "undone"@ || a == "uncomplete"@ || a == "rm"@ || a
        == "remove"@ || a == "delete"@ {
        lemma_not_help_or_version(a);
        lemma_id_words_are_not_list_or_add(a);
        let rest = args.drop_first();
        law_id_lists(rest);
        assert((forall|i: int| 1 <= i < args.len() ==> parse_u64_spec(#[trigger] args[i]) is Some)
            == (forall|i: int| 0 <= i < rest.len() ==> parse_u64_spec(#[trigger] rest[i]) is Some))
            by {
            if forall|i: int| 1 <= i < args.len() ==> parse_u64_spec(#[trigger] args[i]) is Some {
                assert forall|i: int| 0 <= i < rest.len() implies parse_u64_spec(
                    #[trigger] rest[i],
                ) is Some by {
                    assert(rest[i] == args[i + 1]);
                }
            }
            if forall|i: int| 0 <= i < rest.len() ==> parse_u64_spec(#[trigger] rest[i]) is Some {
                assert forall|i: int| 1 <= i < args.len() implies parse_u64_spec(
                    #[trigger] args[i],
                ) is Some by {
                    assert(rest[i - 1] == args[i]);
                }
            }
        }
        if parse_spec(args) is Ok {
            let ids = id_list_spec(rest)->Ok_0;
            assert forall|i: int| 0 <= i < ids.len() implies Some(#[trigger] ids[i])
                == parse_u64_spec(args[i + 1]) by {
                assert(rest[i] == args[i + 1]);
            }
        }
    }
}

proof fn lemma_not_help_or_version(a: Seq<char>)
    requires
        a == "list"@ || a == "ls"@ || a == "add"@ || a == "new"@ || a == "done"@ || a
            == "complete"@ || a == "undone"@ || a == "uncomplete"@ || a == "rm"@ || a
            == "remove"@ || a == "delete"@,
    ensures
        !(a == "-h"@ || a == "--help"@ || a == "help"@),
        !(a == "-V"@ || a == "--version"@ || a == "version"@),
{
    reveal_strlit("-h");
    reveal_strlit("--help");
    reveal_strlit("help");
    reveal_strlit("-V");
    reveal_strlit("--version");
    reveal_strlit("version");
    reveal_strlit("list");
    reveal_strlit("ls");
    reveal_strlit("add");
    reveal_strlit("new");
    reveal_strlit("done");
    reveal_strlit("complete");
    reveal_strlit("undone");
    reveal_strlit("uncomplete");
    reveal_strlit("rm");
    reveal_strlit("remove");
    reveal_strlit("delete");
    assert(a.len() >= 2);
    if a.len() == 2 {
        assert(a[0] != '-');
    }
    if a.len() == 4 {
        assert(a[0] != 'h');
    }
    if a.len() == 6 {
        assert(a[0] != '-');
    }
    if a.len() == 7 {
        assert(a[0] != 'v');
    }
    if a.len() == 9 {
        assert(a[0] != '-');
    }
}

proof fn lemma_id_words_are_not_list_or_add(a: Seq<char>)
    requires
        a == "done"@ || a == "complete"@ || a == "undone"@ || a == "uncomplete"@ || a == "rm"@
            || a == "remove"@ || a == "delete"@,
    ensures
        !(a == "list"@ || a == "ls"@ || a == "add"@ || a == "new"@),
        (a == "done"@ || a == "complete"@) ==> !(a == "undone"@ || a == "uncomplete"@),
{
    reveal_strlit("list");
    reveal_strlit("ls");
    reveal_strlit("add");
    reveal_strlit("new");
    reveal_strlit("done");
    reveal_strlit("complete");
    reveal_strlit("undone");
    reveal_strlit("uncomplete");
    reveal_strlit("rm");
    reveal_strlit("remove");
    reveal_strlit("delete");
    assert(a.len() >= 2);
    if a.len() == 2 {
        assert(a[0] == 'r');
    }
    if a.len() == 4 {
        assert(a[0] == 'd');
    }
}

/// `t` occurs somewhere in `s`.
pub open spec fn has_text(s: Seq<char>, t: Seq<char>) -> bool {
    exists|a: int| 0 <= a && a + t.len() <= s.len() && #[trigger] s.subrange(a, a + t.len()) == t
}

proof fn lemma_unknown_ids_members(todos: Seq<Todo>, ids: Seq<u64>)
    ensures
        (unknown_ids(todos, ids).len() == 0) == (forall|k: int|
            0 <= k < ids.len() ==> first_index(todos, #[trigger] ids[k]) is Some),
        forall|k: int|
            0 <= k < ids.len() && first_index(todos, #[trigger] ids[k]) is None
                ==> unknown_ids(todos, ids).contains(ids[k]),
    decreases ids.len(),
{
    if ids.len() > 0 {
        let p = ids.drop_last();
        lemma_unknown_ids_members(todos, p);
        let u = unknown_ids(todos, p);
        assert forall|k: int|
            0 <= k < ids.len() && first_index(todos, #[trigger] ids[k]) is None implies unknown_ids(
            todos,
            ids,
        ).contains(ids[k]) by {
            if k < p.len() {
                assert(ids[k] == p[k]);
                let j = choose|j: int| 0 <= j < u.len() && u[j] == ids[k];
                if first_index(todos, ids.last()) is None {
                    assert(u.push(ids.last())[j] == ids[k]);
                }
            } else {
                assert(u.push(ids.last())[u.len() as int] == ids[k]);
            }
        }
        if forall|k: int| 0 <= k < ids.len() ==> first_index(todos, #[trigger] ids[k]) is Some {
            assert forall|k: int| 0 <= k < p.len() implies first_index(
                todos,
                #[trigger] p[k],
            ) is Some by {
                assert(p[k] == ids[k]);
            }
            assert(first_index(todos, ids[ids.len() - 1]) is Some);
        } else {
            let k = choose|k: int| 0 <= k < ids.len() && !(first_index(todos, #[trigger] ids[k]) is Some);
            assert(unknown_ids(todos, ids).contains(ids[k]));
        }
    }
}

proof fn lemma_comma_list_has(ns: Seq<u64>, j: int)
    requires
        0 <= j < ns.len(),
    ensures
        has_text(comma_list(ns), decimal(ns[j] as nat)),
    decreases ns.len(),
{
    let c = comma_list(ns);
    let d = decimal(ns[j] as nat);
    if ns.len() == 1 {
        assert(c.subrange(0, 0int + d.len()) =~= d);
    } else if j == ns.len() - 1 {
        let pre = comma_list(ns.drop_last()) + ", "@;
        assert(c == pre + d);
        let a0: int = pre.len() as int;
        assert(c.subrange(a0, a0 + d.len()) =~= d);
    } else {
        let p = ns.drop_last();
        lemma_comma_list_has(p, j);
        assert(p[j] == ns[j]);
        let cp = comma_list(p);
        let a = choose|a: int|
            0 <= a && a + d.len() <= cp.len() && #[trigger] cp.subrange(a, a + d.len()) == d;
        assert(c == cp + (", "@ + decimal(ns.last() as nat)));
        assert(c.subrange(a, a + d.len()) =~= cp.subrange(a, a + d.len()));
        assert(c.subrange(a, a + d.len()) == d);
    }
}

/// `missing` passes exactly when every id names a to-do; otherwise its
/// message names each unknown id in decimal and says nothing was changed.
pub proof fn law_missing_names_every_unknown_id(todos: Seq<Todo>, ids: Seq<u64>)
    ensures
        (unknown_ids(todos, ids).len() == 0) == (forall|k: int|
            0 <= k < ids.len() ==> first_index(todos, #[trigger] ids[k]) is Some),
        unknown_ids(todos, ids).len() > 0 ==> has_text(
            missing_message(unknown_ids(todos, ids)),
            "nothing was changed"@,
        ),
        forall|k: int|
            0 <= k < ids.len() && first_index(todos, #[trigger] ids[k]) is None ==> has_text(
                missing_message(unknown_ids(todos, ids)),
                decimal(ids[k] as nat),
            ),
{
    reveal_strlit("no to-do with id ");
    reveal_strlit(" — nothing was changed");
    reveal_strlit("nothing was changed");
    lemma_unknown_ids_members(todos, ids);
    let u = unknown_ids(todos, ids);
    let c = comma_list(u);
    let pre = "no to-do with id "@;
    let post = " — nothing was changed"@;
    let m = missing_message(u);
    assert(m == pre + c + post);
    let tail = "nothing was changed"@;
    assert(post.len() == 22 && tail.len() == 19 && pre.len() == 17);
    let at: int = (pre.len() + c.len() + 3) as int;
    assert(m.subrange(at, at + 19) =~= post.subrange(3, 22));
    assert(post.subrange(3, 22) =~= tail);
    assert(m.subrange(at, at + tail.len()) == tail);
    assert forall|k: int|
        0 <= k < ids.len() && first_index(todos, #[trigger] ids[k]) is None implies has_text(
        m,
        decimal(ids[k] as nat),
    ) by {
        let j = choose|j: int| 0 <= j < u.len() && u[j] == ids[k];
        lemma_comma_list_has(u, j);
        let d = decimal(ids[k] as nat);
        let a = choose|a: int|
            0 <= a && a + d.len() <= c.len() && #[trigger] c.subrange(a, a + d.len()) == d;
        assert(m.subrange(17 + a, 17 + a + d.len()) =~= c.subrange(a, a + d.len()));
    }
}

/// Whether `rest[i]` is taken as the value of a `--body` just before it: a
/// `--body` consumes the next argument, unless it is itself a value.
pub open spec fn is_body_value(rest: Seq<Seq<char>>, i: int) -> bool
    decreases i,
{
    if i <= 0 || i >= rest.len() {
        false
    } else {
        rest[i - 1] == "--body"@ && !is_body_value(rest, i - 1)
    }
}

/// `rest[i]` is a `--body` flag, not a value.
pub open spec fn body_flag_at(rest: Seq<Seq<char>>, i: int) -> bool {
    0 <= i < rest.len() && !is_body_value(rest, i) && rest[i] == "--body"@
}

/// `rest[i]` is a `--json` flag, not a value.
pub open spec fn json_flag_at(rest: Seq<Seq<char>>, i: int) -> bool {
    0 <= i < rest.len() && !is_body_value(rest, i) && rest[i] == "--json"@
}

/// `rest[i]` is a word of the title: neither a value nor spelled like an
/// option.
pub open spec fn add_word_at(rest: Seq<Seq<char>>, i: int) -> bool {
    0 <= i < rest.len() && !is_body_value(rest, i) && !is_option(rest[i])
}

/// `rest[i]` makes `add` fail: a `--body` with nothing after it, or an
/// option `add` does not know.
pub open spec fn add_error_at(rest: Seq<Seq<char>>, i: int) -> bool {
    ||| body_flag_at(rest, i) && i == rest.len() - 1
    ||| 0 <= i < rest.len() && !is_body_value(rest, i) && is_option(rest[i]) && rest[i]
        != "--body"@ && rest[i] != "--json"@
}

/// The words of the title from position `d` on, in order.
pub open spec fn add_words_from(rest: Seq<Seq<char>>, d: int) -> Seq<Seq<char>>
    decreases rest.len() - d,
{
    if 0 <= d < rest.len() {
        if add_word_at(rest, d) {
            seq![rest[d]] + add_words_from(rest, d + 1)
        } else {
            add_words_from(rest, d + 1)
        }
    } else {
        Seq::empty()
    }
}

proof fn lemma_flag_spellings()
    ensures
        is_option("--body"@),
        is_option("--json"@),
        "--body"@ != "--json"@,
{
    reveal_strlit("--body");
    reveal_strlit("--json");
    assert("--body"@[2] != "--json"@[2]);
}

proof fn lemma_add_scan(
    r: Seq<Seq<char>>,
    d: int,
    w: Seq<Seq<char>>,
    b: Option<Seq<char>>,
    j: bool,
)
    requires
        0 <= d <= r.len(),
        !is_body_value(r, d),
    ensures
        (add_spec(r.skip(d), w, b, j) is Err) == (exists|i: int|
            d <= i && #[trigger] add_error_at(r, i)),
        add_spec(r.skip(d), w, b, j) matches Ok((w2, b2, j2)) ==> {
            &&& w2 == w + add_words_from(r, d)
            &&& j2 == (j || exists|i: int| d <= i && #[trigger] json_flag_at(r, i))
            &&& (forall|i: int| d <= i ==> !#[trigger] body_flag_at(r, i)) ==> b2 == b
            &&& forall|i: int|
                d <= i && #[trigger] body_flag_at(r, i) && (forall|k: int|
                    i < k ==> !body_flag_at(r, k)) ==> i + 1 < r.len() && b2 == Some(r[i + 1])
        },
    decreases r.len() - d,
{
    lemma_flag_spellings();
    let s = r.skip(d);
    if d == r.len() {
        assert(s.len() == 0);
        assert(w + add_words_from(r, d) =~= w);
    } else {
        let a = r[d];
        assert(s[0] == a);
        if a == "--body"@ {
            assert(body_flag_at(r, d));
            if d + 1 < r.len() {
                assert(is_body_value(r, d + 1));
                assert(!is_body_value(r, d + 2));
                assert(s.skip(2) =~= r.skip(d + 2));
                assert(s[1] == r[d + 1]);
                lemma_add_scan(r, d + 2, w, Some(r[d + 1]), j);
                assert(!add_error_at(r, d));
                assert(!add_error_at(r, d + 1));
                assert(!json_flag_at(r, d));
                assert(!json_flag_at(r, d + 1));
                assert(!body_flag_at(r, d + 1));
                assert(!add_word_at(r, d));
                assert(!add_word_at(r, d + 1));
                assert(add_words_from(r, d) == add_words_from(r, d + 1));
                assert(add_words_from(r, d + 1) == add_words_from(r, d + 2));
                assert((exists|i: int| d <= i && #[trigger] add_error_at(r, i)) == (exists|i: int|
                    d + 2 <= i && #[trigger] add_error_at(r, i))) by {
                    if exists|i: int| d <= i && #[trigger] add_error_at(r, i) {
                        let i = choose|i: int| d <= i && #[trigger] add_error_at(r, i);
                        assert(d + 2 <= i);
                    }
                }
                assert((exists|i: int| d <= i && #[trigger] json_flag_at(r, i)) == (exists|i: int|
                    d + 2 <= i && #[trigger] json_flag_at(r, i))) by {
                    if exists|i: int| d <= i && #[trigger] json_flag_at(r, i) {
                        let i = choose|i: int| d <= i && #[trigger] json_flag_at(r, i);
                        assert(d + 2 <= i);
                    }
                }
                if add_spec(s, w, b, j) is Ok {
                    let b2 = (add_spec(s, w, b, j)->Ok_0).1;
                    assert forall|i: int|
                        d <= i && #[trigger] body_flag_at(r, i) && (forall|k: int|
                            i < k ==> !body_flag_at(r, k)) implies i + 1 < r.len() && b2 == Some(r[i + 1]) by {
                        if i == d {
                            assert forall|k: int| d + 2 <= k implies !#[trigger] body_flag_at(
                                r,
                                k,
                            ) by {
                                assert(d < k);
                            }
                        } else {
                            assert(d + 2 <= i);
                        }
                    }
                }
            } else {
                assert(add_error_at(r, d));
            }
        } else if a == "--json"@ {
            assert(!is_body_value(r, d + 1));
            assert(s.drop_first() =~= r.skip(d + 1));
            lemma_add_scan(r, d + 1, w, b, true);
            assert(!add_error_at(r, d));
            assert(json_flag_at(r, d));
            assert(!body_flag_at(r, d));
            assert(!add_word_at(r, d));
            assert(add_words_from(r, d) == add_words_from(r, d + 1));
            assert((exists|i: int| d <= i && #[trigger] add_error_at(r, i)) == (exists|i: int|
                d + 1 <= i && #[trigger] add_error_at(r, i))) by {
                if exists|i: int| d <= i && #[trigger] add_error_at(r, i) {
                    let i = choose|i: int| d <= i && #[trigger] add_error_at(r, i);
                    assert(d + 1 <= i);
                }
            }
            if add_spec(s, w, b, j) is Ok {
                let b2 = (add_spec(s, w, b, j)->Ok_0).1;
                assert forall|i: int|
                    d <= i && #[trigger] body_flag_at(r, i) && (forall|k: int|
                        i < k ==> !body_flag_at(r, k)) implies i + 1 < r.len() && b2 == Some(r[i + 1]) by {
                    assert(d + 1 <= i);
                }
            }
        } else if is_option(a) {
            assert(add_error_at(r, d));
        } else {
            assert(!is_body_value(r, d + 1));
            assert(s.drop_first() =~= r.skip(d + 1));
            lemma_add_scan(r, d + 1, w.push(a), b, j);
            assert(!add_error_at(r, d));
            assert(!json_flag_at(r, d));
            assert(!body_flag_at(r, d));
            assert(add_word_at(r, d));
            assert(w.push(a) + add_words_from(r, d + 1) =~= w + add_words_from(r, d));
            assert((exists|i: int| d <= i && #[trigger] add_error_at(r, i)) == (exists|i: int|
                d + 1 <= i && #[trigger] add_error_at(r, i))) by {
                if exists|i: int| d <= i && #[trigger] add_error_at(r, i) {
                    let i = choose|i: int| d <= i && #[trigger] add_error_at(r, i);
                    assert(d + 1 <= i);
                }
            }
            assert((exists|i: int| d <= i && #[trigger] json_flag_at(r, i)) == (exists|i: int|
                d + 1 <= i && #[trigger] json_flag_at(r, i))) by {
                if exists|i: int| d <= i && #[trigger] json_flag_at(r, i) {
                    let i = choose|i: int| d <= i && #[trigger] json_flag_at(r, i);
                    assert(d + 1 <= i);
                }
            }
            if add_spec(s, w, b, j) is Ok {
                let b2 = (add_spec(s, w, b, j)->Ok_0).1;
                assert forall|i: int|
                    d <= i && #[trigger] body_flag_at(r, i) && (forall|k: int|
                        i < k ==> !body_flag_at(r, k)) implies i + 1 < r.len() && b2 == Some(r[i + 1]) by {
                    assert(d + 1 <= i);
                }
            }
        }
    }
}

/// `add` (or `new`) reads its arguments left to right, each `--body`
/// taking the argument after it as its value. It fails exactly when a
/// `--body` has nothing after it, when an argument spelled like an option is
/// neither `--body` nor `--json`, or when the remaining words, joined by
/// single spaces and trimmed, come to nothing. Otherwise the title is those
/// words so joined, the body is the value of the last `--body` (none
/// without one), and `--json` is on exactly when it appears.
pub proof fn law_add_command(args: Seq<Seq<char>>)
    requires
        args.len() > 0,
        args[0] == "add"@ || args[0] == "new"@,
    ensures
        (parse_spec(args) is Err) == ((exists|i: int| #[trigger] add_error_at(args.drop_first(), i))
            || trim(spaced(add_words_from(args.drop_first(), 0))).len() == 0),
        parse_spec(args) matches Ok(c) ==> c matches CommandView::Add { title, body, json } && {
            &&& title == trim(spaced(add_words_from(args.drop_first(), 0)))
            &&& json == exists|i: int| #[trigger] json_flag_at(args.drop_first(), i)
            &&& (forall|i: int| !#[trigger] body_flag_at(args.drop_first(), i)) ==> body is None
            &&& forall|i: int|
                #[trigger] body_flag_at(args.drop_first(), i) && (forall|k: int|
                    i < k ==> !body_flag_at(args.drop_first(), k)) ==> i + 2 < args.len() && body
                    == Some(args[i + 2])
        },
{
    reveal_strlit("add");
    reveal_strlit("new");
    reveal_strlit("list");
    reveal_strlit("ls");
    lemma_not_help_or_version(args[0]);
    assert("add"@.len() == 3 && "new"@.len() == 3 && "list"@.len() == 4 && "ls"@.len() == 2);
    assert("add"@[0] == 'a' && "new"@[0] == 'n' && "list"@[0] == 'l');
    let rest = args.drop_first();
    assert(rest.skip(0) =~= rest);
    lemma_add_scan(rest, 0, Seq::empty(), None, false);
    assert(Seq::<Seq<char>>::empty() + add_words_from(rest, 0) =~= add_words_from(rest, 0));
    assert((exists|i: int| #[trigger] add_error_at(rest, i)) == (exists|i: int|
        0 <= i && #[trigger] add_error_at(rest, i)));
    if add_spec(rest, Seq::empty(), None, false) is Ok {
        assert((exists|i: int| #[trigger] json_flag_at(rest, i)) == (exists|i: int|
            0 <= i && #[trigger] json_flag_at(rest, i)));
        assert forall|i: int|
            #[trigger] body_flag_at(rest, i) && (forall|k: int| i < k ==> !body_flag_at(rest, k))
                implies i + 2 < args.len() && (add_spec(rest, Seq::empty(), None, false)->Ok_0).1
            == Some(args[i + 2]) by {
            assert(0 <= i);
            assert(rest[i + 1] == args[i + 2]);
        }
    }
}

proof fn lemma_filter_keeps_unique(s: Seq<Todo>, f: spec_fn(Todo) -> bool)
    requires
        ids_unique(s),
    ensures
        ids_unique(s.filter(f)),
    decreases s.len(),
{
    reveal(Seq::filter);
    if s.len() > 0 {
        let d = s.drop_last();
        assert(ids_unique(d)) by {
            assert forall|i: int, j: int|
                0 <= i < d.len() && 0 <= j < d.len() && i != j implies #[trigger] d[i].id
                != #[trigger] d[j].id by {
                assert(d[i] == s[i] && d[j] == s[j]);
            }
        }
        lemma_filter_keeps_unique(d, f);
        let sub = d.filter(f);
        if f(s.last()) {
            let t = sub.push(s.last());
            assert forall|i: int, j: int|
                0 <= i < t.len() && 0 <= j < t.len() && i != j implies #[trigger] t[i].id
                != #[trigger] t[j].id by {
                if i < sub.len() && j < sub.len() {
                    assert(t[i] == sub[i] && t[j] == sub[j]);
                } else {
                    let k = if i < sub.len() { i } else { j };
                    assert(t[k] == sub[k]);
                    assert(sub.contains(sub[k]));
                    d.lemma_filter_contains_rev(f, sub[k]);
                    let m = choose|m: int| 0 <= m < d.len() && d[m] == sub[k];
                    assert(s[m] == d[m]);
                    assert(s[s.len() - 1] == s.last());
                }
            }
        }
    }
}

proof fn lemma_filter_all_pass(s: Seq<Todo>, f: spec_fn(Todo) -> bool)
    requires
        forall|i: int| 0 <= i < s.len() ==> f(#[trigger] s[i]),
    ensures
        s.filter(f) == s,
    decreases s.len(),
{
    reveal(Seq::filter);
    if s.len() > 0 {
        let d = s.drop_last();
        assert forall|i: int| 0 <= i < d.len() implies f(#[trigger] d[i]) by {
            assert(d[i] == s[i]);
        }
        lemma_filter_all_pass(d, f);
        assert(f(s[s.len() - 1]));
        assert(d.push(s.last()) =~= s);
    }
}

proof fn lemma_filter_twice(s: Seq<Todo>, f: spec_fn(Todo) -> bool, g: spec_fn(Todo) -> bool)
    ensures
        s.filter(f).filter(g) == s.filter(|t: Todo| f(t) && g(t)),
    decreases s.len(),
{
    reveal(Seq::filter);
    if s.len() > 0 {
        lemma_filter_twice(s.drop_last(), f, g);
        let sub = s.drop_last().filter(f);
        if f(s.last()) {
            assert(sub.push(s.last()).drop_last() =~= sub);
        }
    }
}

/// Taking out the first to-do with id `x` of a list whose ids are unique
/// keeps exactly the to-dos with other ids, in order.
proof fn lemma_remove_id(s: Seq<Todo>, x: u64)
    requires
        ids_unique(s),
    ensures
        (match first_index(s, x) {
            Some(i) => s.remove(i),
            None => s,
        }) == s.filter(|t: Todo| t.id != x),
    decreases s.len(),
{
    reveal(Seq::filter);
    let q = |t: Todo| t.id != x;
    lemma_first_index(s, x);
    if s.len() > 0 {
        let d = s.drop_last();
        assert(ids_unique(d)) by {
            assert forall|i: int, j: int|
                0 <= i < d.len() && 0 <= j < d.len() && i != j implies #[trigger] d[i].id
                != #[trigger] d[j].id by {
                assert(d[i] == s[i] && d[j] == s[j]);
            }
        }
        if s.last().id == x {
            assert forall|j: int| 0 <= j < s.len() - 1 implies (#[trigger] s[j]).id != x by {
                assert(s[s.len() - 1] == s.last());
            }
            lemma_first_index_unique(s, x, s.len() - 1);
            assert forall|i: int| 0 <= i < d.len() implies q(#[trigger] d[i]) by {
                assert(d[i] == s[i]);
            }
            lemma_filter_all_pass(d, q);
            assert(s.remove(s.len() - 1) =~= d);
        } else {
            lemma_remove_id(d, x);
            lemma_first_index(d, x);
            match first_index(s, x) {
                Some(i) => {
                    assert(first_index(d, x) == Some(i));
                    assert(s.remove(i) =~= d.remove(i).push(s.last()));
                },
                None => {
                    assert(first_index(d, x) is None);
                },
            }
        }
    }
}

/// With ids unique, taking out each listed id in turn leaves exactly the
/// to-dos whose ids are not listed, in their original order, whatever order
/// or repeats the ids come in.
pub proof fn law_remove_all_keeps_the_rest(todos: Seq<Todo>, ids: Seq<u64>)
    requires
        ids_unique(todos),
    ensures
        removed_each(todos, ids) == todos.filter(|t: Todo| !ids.contains(t.id)),
    decreases ids.len(),
{
    reveal(Seq::filter);
    if ids.len() == 0 {
        lemma_filter_all_pass(todos, |t: Todo| !ids.contains(t.id));
    } else {
        let p = ids.drop_last();
        let x = ids.last();
        law_remove_all_keeps_the_rest(todos, p);
        let kp = |t: Todo| !p.contains(t.id);
        let g = |t: Todo| t.id != x;
        let k = |t: Todo| !ids.contains(t.id);
        let before = todos.filter(kp);
        assert(removed_each(todos, p) == before);
        lemma_filter_keeps_unique(todos, kp);
        lemma_remove_id(before, x);
        assert((|t: Todo| t.id != x) =~= g);
        lemma_filter_twice(todos, kp, g);
        assert forall|y: u64| ids.contains(y) == (p.contains(y) || y == x) by {
            if ids.contains(y) {
                let k = choose|k: int| 0 <= k < ids.len() && ids[k] == y;
                if k < p.len() {
                    assert(p[k] == y);
                }
            }
            if p.contains(y) {
                let k = choose|k: int| 0 <= k < p.len() && p[k] == y;
                assert(ids[k] == y);
            }
            if y == x {
                assert(ids[ids.len() - 1] == y);
            }
        }
        assert((|t: Todo| kp(t) && g(t)) =~= k);
        assert(before.filter(g) == todos.filter(k));
        assert(removed_each(todos, ids) == before.filter(g));
    }
}

proof fn lemma_records_text_prepend(r: Record, rs: Seq<Record>)
    ensures
        records_text(seq![r] + rs) == record_text(r) + records_text(rs),
    decreases rs.len(),
{
    if rs.len() == 0 {
        assert(seq![r] + rs =~= seq![r]);
        assert(seq![r].drop_last() =~= Seq::<Record>::empty());
        assert(records_text(seq![r].drop_last()) == Seq::<char>::empty());
        assert(seq![r].last() == r);
        assert(records_text(seq![r]) == records_text(seq![r].drop_last()) + record_text(r));
        assert(records_text(seq![r]) =~= Seq::<char>::empty() + record_text(r));
        assert(record_text(r) + records_text(rs) =~= record_text(r));
    } else {
        lemma_records_text_prepend(r, rs.drop_last());
        assert((seq![r] + rs).drop_last() =~= seq![r] + rs.drop_last());
        assert((seq![r] + rs).last() == rs.last());
        assert(record_text(r) + records_text(rs.drop_last()) + record_text(rs.last()) =~= record_text(
            r,
        ) + (records_text(rs.drop_last()) + record_text(rs.last())));
    }
}

/// A listing lays its records out in the order given: a record added at the
/// end of a nonempty list adds its text at the end, and a record put first
/// has its text first.
pub proof fn law_listing_keeps_record_order(rs: Seq<Record>, r: Record)
    ensures
        rs.len() > 0 ==> render_text_spec(rs.push(r)) == render_text_spec(rs) + record_text(r),
        render_text_spec(seq![r] + rs) == record_text(r) + records_text(rs),
        render_text_spec(seq![r] + rs).take(record_text(r).len() as int) == record_text(r),
{
    assert(rs.push(r).drop_last() =~= rs);
    lemma_records_text_prepend(r, rs);
    assert((seq![r] + rs).len() > 0);
    assert((record_text(r) + records_text(rs)).take(record_text(r).len() as int) =~= record_text(r));
}

} // verus!
