//! Colours as the LEDs take them: one byte per channel, no alpha.

use vstd::prelude::*;

verus! {

/// Intensities of the red, green and blue channel of one LED.
#[derive(Clone, Copy, Debug, PartialEq, Eq, Structural, Hash)]
pub struct Color {
    pub r: u8,
    pub g: u8,
    pub b: u8,
}

impl Color {
    /// The colour of an LED that is switched off.
    pub open spec fn off() -> Color {
        Color { r: 0, g: 0, b: 0 }
    }

    /// The colour with the given channel intensities.
    pub fn new(r: u8, g: u8, b: u8) -> (color: Color)
        ensures
            color == (Color { r, g, b }),
    {
        Color { r, g, b }
    }
}

impl Default for Color {
    /// An LED that is switched off.
    fn default() -> (color: Color)
        ensures
            color == Color::off(),
    {
        Color { r: 0, g: 0, b: 0 }
    }
}

} // verus!
