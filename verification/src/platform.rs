//! Which desktop the app is running on, where that changes a name or a key.

use vstd::prelude::*;

verus! {

/// The host platform, as far as labels and shortcuts care.
#[derive(Debug, Clone, Copy, PartialEq, Eq, Structural)]
pub enum Platform {
    /// macOS: Command and Option.
    Mac,
    /// Linux, Windows and the rest: Control, Alt and Super.
    Other,
}

impl Platform {
    /// How this platform spells the modifier every shortcut uses.
    pub fn modifier(self) -> (r: &'static str)
        ensures
            r@ == modifier_name(self),
    {
        match self {
            Platform::Mac => "Cmd",
            Platform::Other => "Ctrl",
        }
    }
}

/// `Cmd` on macOS, `Ctrl` everywhere else.
pub open spec fn modifier_name(p: Platform) -> Seq<char> {
    match p {
        Platform::Mac => "Cmd"@,
        Platform::Other => "Ctrl"@,
    }
}

} // verus!
