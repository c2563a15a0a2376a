//! What a load from disk reports, and the files it reads.

use vstd::prelude::*;

use crate::text::{chars_of, extend_str, string_of};

verus! {

pub const TODOS_FILE: &'static str = "todos.json";
pub const SETTINGS_FILE: &'static str = "settings.json";

/// Outcome of a load, so the UI can say when something went wrong instead of
/// silently starting empty.
#[derive(Debug, Clone, PartialEq)]
pub enum LoadNotice {
    /// The file was read and parsed.
    Loaded,
    /// There was no file, so the defaults were used.
    Fresh,
    Quarantined(String),
}

/// What the user is told when a file could not be parsed and was set aside.
pub open spec fn quarantine_text(what: Seq<char>) -> Seq<char> {
    "Couldn't read your "@ + what + "; kept a backup copy."@
}

/// The notice for a file that could not be parsed and was kept aside.
pub fn quarantined(what: &str) -> (n: LoadNotice)
    ensures
        n matches LoadNotice::Quarantined(m) && m@ == quarantine_text(what@),
{
    let mut v = chars_of("Couldn't read your ");
    extend_str(&mut v, what);
    extend_str(&mut v, "; kept a backup copy.");
    LoadNotice::Quarantined(string_of(v.as_slice()))
}

/// The message to show at startup: the to-do file's quarantine notice if it
/// has one, else the settings file's, else none.
pub fn startup_notice(todos: &LoadNotice, settings: &LoadNotice) -> (r: Option<String>)
    ensures
        match (todos, settings) {
            (LoadNotice::Quarantined(m), _) => r matches Some(s) && s@ == m@,
            (_, LoadNotice::Quarantined(m)) => r matches Some(s) && s@ == m@,
            _ => r is None,
        },
{
    match (todos, settings) {
        (LoadNotice::Quarantined(m), _) => Some(m.clone()),
        (_, LoadNotice::Quarantined(m)) => Some(m.clone()),
        _ => None,
    }
}

} // verus!
