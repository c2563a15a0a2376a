//! The accent colours. One accent derives the whole palette; the blending
//! itself happens in floating point and lives with the drawing code.

use vstd::prelude::*;

verus! {

#[derive(Debug, Clone, Copy, PartialEq, Eq, Hash, Structural)]
pub enum Accent {
    Pink,
    Purple,
    Blue,
    Teal,
    Green,
    Amber,
    Red,
    Graphite,
}

/// An accent's name in the settings sheet.
pub open spec fn accent_name(a: Accent) -> Seq<char> {
    match a {
        Accent::Pink => "Pink"@,
        Accent::Purple => "Purple"@,
        Accent::Blue => "Blue"@,
        Accent::Teal => "Teal"@,
        Accent::Green => "Green"@,
        Accent::Amber => "Amber"@,
        Accent::Red => "Red"@,
        Accent::Graphite => "Graphite"@,
    }
}

/// The accent's colour as `0xRRGGBB`: Open Color shade 7 in light mode,
/// shade 3 in dark mode.
pub open spec fn accent_rgb(a: Accent, dark: bool) -> u32 {
    let (light, dk) = match a {
        Accent::Pink => (0xd6336cu32, 0xf783acu32),
        Accent::Purple => (0x7048e8u32, 0xb197fcu32),
        Accent::Blue => (0x1c7ed6u32, 0x74c0fcu32),
        Accent::Teal => (0x0ca678u32, 0x63e6beu32),
        Accent::Green => (0x37b24du32, 0x8ce99au32),
        Accent::Amber => (0xe8590cu32, 0xffd43bu32),
        Accent::Red => (0xe03131u32, 0xff8787u32),
        Accent::Graphite => (0x495057u32, 0xced4dau32),
    };
    if dark {
        dk
    } else {
        light
    }
}

impl Default for Accent {
    fn default() -> (a: Accent)
        ensures
            a == Accent::Pink,
    {
        Accent::Pink
    }
}

impl Accent {
    /// Every accent, in the order the settings sheet shows them.
    pub fn all() -> (r: [Accent; 8])
        ensures
            r@ == seq![
                Accent::Pink,
                Accent::Purple,
                Accent::Blue,
                Accent::Teal,
                Accent::Green,
                Accent::Amber,
                Accent::Red,
                Accent::Graphite,
            ],
    {
        [
            Accent::Pink,
            Accent::Purple,
            Accent::Blue,
            Accent::Teal,
            Accent::Green,
            Accent::Amber,
            Accent::Red,
            Accent::Graphite,
        ]
    }

    pub fn label(self) -> (r: &'static str)
        ensures
            r@ == accent_name(self),
    {
        match self {
            Accent::Pink => "Pink",
            Accent::Purple => "Purple",
            Accent::Blue => "Blue",
            Accent::Teal => "Teal",
            Accent::Green => "Green",
            Accent::Amber => "Amber",
            Accent::Red => "Red",
            Accent::Graphite => "Graphite",
        }
    }

    /// The accent colour as `0xRRGGBB`. The light-mode shades are darker and
    /// the dark-mode shades lighter, so the accent reads on either background.
    pub fn rgb(self, dark: bool) -> (c: u32)
        ensures
            c == accent_rgb(self, dark),
    {
        let (light, dk): (u32, u32) = match self {
            Accent::Pink => (0xd6336c, 0xf783ac),
            Accent::Purple => (0x7048e8, 0xb197fc),
            Accent::Blue => (0x1c7ed6, 0x74c0fc),
            Accent::Teal => (0x0ca678, 0x63e6be),
            Accent::Green => (0x37b24d, 0x8ce99a),
            Accent::Amber => (0xe8590c, 0xffd43b),
            Accent::Red => (0xe03131, 0xff8787),
            Accent::Graphite => (0x495057, 0xced4da),
        };
        if dark {
            dk
        } else {
            light
        }
    }

    /// Red, green and blue of a `0xRRGGBB` colour.
    pub fn channels(hex: u32) -> (c: (u8, u8, u8))
        ensures
            c.0 == (hex / 0x1_0000) % 0x100,
            c.1 == (hex / 0x100) % 0x100,
            c.2 == hex % 0x100,
    {
        (((hex / 0x1_0000) % 0x100) as u8, ((hex / 0x100) % 0x100) as u8, (hex % 0x100) as u8)
    }
}

} // verus!
