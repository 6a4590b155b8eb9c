//! Colors and the named palette used for the clock face.

use vstd::prelude::*;

verus! {

/// An RGBA color with 8-bit channels. An alpha of zero together with equal
/// channels is an additive (glow) color.
#[derive(Clone, Copy, Debug, PartialEq, Eq, Structural)]
pub struct Rgba {
    pub r: u8,
    pub g: u8,
    pub b: u8,
    pub a: u8,
}

/// The additive grey of a given luminance: all channels at `l`, alpha zero.
pub open spec fn spec_additive(l: u8) -> Rgba {
    Rgba { r: l, g: l, b: l, a: 0 }
}

pub fn additive_luminance(l: u8) -> (c: Rgba)
    ensures
        c == spec_additive(l),
{
    Rgba { r: l, g: l, b: l, a: 0 }
}

/// The named palette: every color the generator emits comes from here
/// rather than from literals scattered through the geometry code.
#[derive(Clone, Copy, Debug, PartialEq, Eq, Structural)]
pub struct Palette {
    /// ticks and hour numbers
    pub white: Rgba,
    /// second-hand pointer overlay
    pub red: Rgba,
    /// minute-hand pointer overlay
    pub green: Rgba,
    /// hour-hand pointer overlay
    pub blue: Rgba,
    /// centre marker
    pub yellow: Rgba,
    /// ring outline
    pub border: Rgba,
}

pub open spec fn spec_default_palette() -> Palette {
    Palette {
        white: Rgba { r: 255, g: 255, b: 255, a: 255 },
        red: Rgba { r: 255, g: 0, b: 0, a: 255 },
        green: Rgba { r: 0, g: 255, b: 0, a: 255 },
        blue: Rgba { r: 0, g: 0, b: 255, a: 255 },
        yellow: Rgba { r: 255, g: 255, b: 0, a: 255 },
        border: Rgba { r: 255, g: 255, b: 255, a: 255 },
    }
}

impl Default for Palette {
    fn default() -> (p: Palette)
        ensures
            p == spec_default_palette(),
    {
        Palette {
            white: Rgba { r: 255, g: 255, b: 255, a: 255 },
            red: Rgba { r: 255, g: 0, b: 0, a: 255 },
            green: Rgba { r: 0, g: 255, b: 0, a: 255 },
            blue: Rgba { r: 0, g: 0, b: 255, a: 255 },
            yellow: Rgba { r: 255, g: 255, b: 0, a: 255 },
            border: Rgba { r: 255, g: 255, b: 255, a: 255 },
        }
    }
}

} // verus!
