//! The parts of the user's preferences that are not sizes on screen: colour
//! scheme, fonts, and quick capture.

use vstd::prelude::*;

use crate::capture::{Config, TapKey, WINDOW_MS_MAX, WINDOW_MS_MIN, tap_key_name};
use crate::platform::Platform;
use crate::text::{chars_of, extend_str, string_of};

verus! {

pub const SETTINGS_VERSION: u32 = 1;

/// The version a settings file without one is read as.
pub fn default_version() -> (v: u32)
    ensures
        v == SETTINGS_VERSION,
{
    SETTINGS_VERSION
}

/// The gap allowed between the two taps when none is configured.
pub fn default_tap_window_ms() -> (ms: u64)
    ensures
        ms == 400,
{
    400
}

/// Window pinning and other switches that start on.
pub fn default_true() -> (b: bool)
    ensures
        b,
{
    true
}

/// The summon shortcut when none is configured.
pub fn default_hotkey() -> (s: String)
    ensures
        s@ == "Alt+Space"@,
{
    "Alt+Space".to_owned()
}

// ------------------------------------------------------------ appearance

#[derive(Debug, Clone, Copy, PartialEq, Eq, Structural)]
pub enum Appearance {
    Auto,
    Light,
    Dark,
}

impl Default for Appearance {
    fn default() -> (a: Appearance)
        ensures
            a == Appearance::Auto,
    {
        Appearance::Auto
    }
}

/// An appearance's name in the settings sheet.
pub open spec fn appearance_name(a: Appearance) -> Seq<char> {
    match a {
        Appearance::Auto => "Auto"@,
        Appearance::Light => "Light"@,
        Appearance::Dark => "Dark"@,
    }
}

impl Appearance {
    pub fn all() -> (r: [Appearance; 3])
        ensures
            r@ == seq![Appearance::Auto, Appearance::Light, Appearance::Dark],
    {
        [Appearance::Auto, Appearance::Light, Appearance::Dark]
    }

    pub fn label(self) -> (r: &'static str)
        ensures
            r@ == appearance_name(self),
    {
        match self {
            Appearance::Auto => "Auto",
            Appearance::Light => "Light",
            Appearance::Dark => "Dark",
        }
    }

    /// Resolves `Auto` against the appearance the OS reports.
    pub fn is_dark(self, system_dark: bool) -> (r: bool)
        ensures
            r == match self {
                Appearance::Auto => system_dark,
                Appearance::Light => false,
                Appearance::Dark => true,
            },
    {
        match self {
            Appearance::Auto => system_dark,
            Appearance::Light => false,
            Appearance::Dark => true,
        }
    }
}

// ------------------------------------------------------------ fonts

/// A chosen font, remembered by path and face index so startup never has to
/// enumerate the system font database.
#[derive(Debug, Clone, PartialEq)]
pub struct FontChoice {
    /// Empty means "use the built-in font".
    pub family: String,
    pub path: String,
    pub index: u32,
}

impl Default for FontChoice {
    fn default() -> (f: FontChoice)
        ensures
            f.family@.len() == 0,
            f.path@.len() == 0,
            f.index == 0,
    {
        FontChoice { family: String::new(), path: String::new(), index: 0 }
    }
}

impl FontChoice {
    /// A choice with no family or no file means the built-in font.
    pub open spec fn spec_is_default(&self) -> bool {
        self.family@.len() == 0 || self.path@.len() == 0
    }

    pub fn is_default(&self) -> (r: bool)
        ensures
            r == self.spec_is_default(),
    {
        chars_of(self.family.as_str()).len() == 0 || chars_of(self.path.as_str()).len() == 0
    }

    /// How the choice is named in the font picker.
    pub fn label(&self) -> (r: &str)
        ensures
            r@ == (if self.spec_is_default() {
                "Built-in"@
            } else {
                self.family@
            }),
    {
        if self.is_default() {
            "Built-in"
        } else {
            self.family.as_str()
        }
    }
}

// ------------------------------------------------------------ quick capture

/// Double-tap-to-summon, and what it brings with it. Off by default, and the
/// only setting that is: it needs a system permission, and a permission
/// prompt is not something to spring on someone who only updated the app.
#[derive(Debug, Clone, Copy, PartialEq, Eq, Structural)]
pub struct QuickCapture {
    pub enabled: bool,
    pub key: TapKey,
    pub window_ms: u64,
}

impl Default for QuickCapture {
    fn default() -> (q: QuickCapture)
        ensures
            q == (QuickCapture { enabled: false, key: TapKey::Shift, window_ms: 400 }),
    {
        QuickCapture { enabled: false, key: TapKey::Shift, window_ms: default_tap_window_ms() }
    }
}

impl QuickCapture {
    pub fn config(&self) -> (c: Config)
        ensures
            c == (Config { key: self.key, window_ms: self.window_ms }),
    {
        Config { key: self.key, window_ms: self.window_ms }
    }

    /// How the gesture is described in the shortcut list: the key, twice.
    pub fn gesture(&self, platform: Platform) -> (s: String)
        ensures
            s@ == tap_key_name(self.key, platform) + " "@ + tap_key_name(self.key, platform),
    {
        let name = self.key.label(platform);
        let mut v = chars_of(name);
        extend_str(&mut v, " ");
        extend_str(&mut v, name);
        string_of(v.as_slice())
    }

    /// A hand-edited gap between taps is pulled back into range: too small
    /// and a deliberate double-tap can't land, too large and two unrelated
    /// taps a second apart start firing it.
    pub fn clamp_window(&mut self)
        ensures
            final(self).enabled == old(self).enabled,
            final(self).key == old(self).key,
            final(self).window_ms == (if old(self).window_ms < WINDOW_MS_MIN {
                WINDOW_MS_MIN
            } else if old(self).window_ms > WINDOW_MS_MAX {
                WINDOW_MS_MAX
            } else {
                old(self).window_ms
            }),
    {
        if self.window_ms < WINDOW_MS_MIN {
            self.window_ms = WINDOW_MS_MIN;
        } else if self.window_ms > WINDOW_MS_MAX {
            self.window_ms = WINDOW_MS_MAX;
        }
    }
}

} // verus!
