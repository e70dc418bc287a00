//! Colors.
//!
//! The compositor never computes with a color: it carries the four channels
//! from the caller to the batch. Each channel is kept as the bit pattern of an
//! IEEE 754 single-precision number, so nothing is lost on the way.

use vstd::prelude::*;

verus! {

/// Bit pattern of the single-precision number `1.0`.
pub const CHANNEL_FULL: u32 = 0x3f80_0000;

/// A color of four channels: red, green, blue and alpha.
#[derive(Clone, Copy, Debug, PartialEq, Eq, Structural)]
pub struct Color {
    pub r: u32,
    pub g: u32,
    pub b: u32,
    pub a: u32,
}

impl Color {
    /// Every channel at `1.0`.
    pub open spec fn white() -> Color {
        Color { r: CHANNEL_FULL, g: CHANNEL_FULL, b: CHANNEL_FULL, a: CHANNEL_FULL }
    }

    pub fn new(r: u32, g: u32, b: u32, a: u32) -> (c: Color)
        ensures
            c == (Color { r, g, b, a }),
    {
        Color { r, g, b, a }
    }

    pub fn opaque_white() -> (c: Color)
        ensures
            c == Color::white(),
    {
        Color { r: CHANNEL_FULL, g: CHANNEL_FULL, b: CHANNEL_FULL, a: CHANNEL_FULL }
    }
}

} // verus!
