//! One RGBA pixel and the arithmetic on colour channels.

use vstd::prelude::*;

verus! {

/// An 8-bit RGBA pixel.
#[derive(Clone, Copy, Debug, PartialEq, Eq, Structural)]
pub struct Pixel {
    pub r: u8,
    pub g: u8,
    pub b: u8,
    pub a: u8,
}

impl Pixel {
    /// The fully transparent pixel: every channel zero.
    pub open spec fn clear() -> Pixel {
        Pixel { r: 0, g: 0, b: 0, a: 0 }
    }

    /// Builds the fully transparent pixel.
    pub fn transparent() -> (p: Pixel)
        ensures
            p == Pixel::clear(),
    {
        Pixel { r: 0, g: 0, b: 0, a: 0 }
    }
}

/// Absolute difference of two channel values.
pub open spec fn channel_distance(x: int, y: int) -> int {
    if x >= y {
        x - y
    } else {
        y - x
    }
}

/// Computes `|x - y|` for two channel values.
pub fn channel_diff(x: u8, y: u8) -> (d: u8)
    ensures
        d as int == channel_distance(x as int, y as int),
{
    if x >= y {
        x - y
    } else {
        y - x
    }
}

} // verus!
