//! Every platform without a quick-capture backend.
//!
//! Hearing a bare modifier and reading another app's selection are
//! per-platform problems with no shared answer, so quick capture says so
//! plainly and the rest of Flodo carries on unchanged.

use vstd::prelude::*;

use super::{Captured, Config};

verus! {

/// What the user is told when quick capture cannot run here.
pub const UNSUPPORTED_MESSAGE: &'static str = "Quick capture is macOS-only for now.";

/// A listener that never started.
pub struct Backend;

/// Always refuses, with a message meant for the user.
pub fn start(config: Config) -> (r: Result<(std::sync::mpsc::Receiver<Captured>, Backend), String>)
    ensures
        r matches Err(m) && m@ == UNSUPPORTED_MESSAGE@,
{
    Err(UNSUPPORTED_MESSAGE.to_owned())
}

/// Nothing to stop.
pub fn stop(backend: &Backend) {
}

} // verus!
