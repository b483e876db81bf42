//! Fill colours.

use vstd::prelude::*;

verus! {

/// A colour as red, green, blue and opacity.
#[derive(Clone, Copy, Debug, PartialEq, Eq, Structural)]
pub struct Color {
    pub r: u8,
    pub g: u8,
    pub b: u8,
    pub a: u8,
}

impl Color {
    /// An opaque colour.
    pub fn rgb(r: u8, g: u8, b: u8) -> (c: Color)
        ensures
            c == (Color { r, g, b, a: 255 }),
    {
        Color { r, g, b, a: 255 }
    }

    /// A colour with the given opacity.
    pub fn rgba(r: u8, g: u8, b: u8, a: u8) -> (c: Color)
        ensures
            c == (Color { r, g, b, a }),
    {
        Color { r, g, b, a }
    }

    pub open spec fn red() -> Color {
        Color { r: 255, g: 0, b: 0, a: 255 }
    }

    pub open spec fn green() -> Color {
        Color { r: 0, g: 255, b: 0, a: 255 }
    }

    pub open spec fn blue() -> Color {
        Color { r: 0, g: 0, b: 255, a: 255 }
    }

    pub open spec fn yellow() -> Color {
        Color { r: 255, g: 255, b: 0, a: 255 }
    }

    pub open spec fn magenta() -> Color {
        Color { r: 255, g: 0, b: 255, a: 255 }
    }

    pub open spec fn cyan() -> Color {
        Color { r: 0, g: 255, b: 255, a: 255 }
    }

    pub open spec fn transparent() -> Color {
        Color { r: 0, g: 0, b: 0, a: 0 }
    }

    pub open spec fn white() -> Color {
        Color { r: 255, g: 255, b: 255, a: 255 }
    }

    pub open spec fn black() -> Color {
        Color { r: 0, g: 0, b: 0, a: 255 }
    }
}

} // verus!
