//! RGB colors and the random accent color.

use vstd::prelude::*;

verus! {

/// One RGB color.
#[derive(Clone, Copy, Debug, PartialEq, Eq, Structural)]
pub struct Rgb {
    pub r: u8,
    pub g: u8,
    pub b: u8,
}

/// A random accent color. Every component stays below 255, so an accent
/// color never equals the all-255 white that dead cells render as.
pub fn create_random_rgb() -> (c: Rgb)
    ensures
        c.r < 255,
        c.g < 255,
        c.b < 255,
{
    Rgb {
        r: crate::rng::random_u8_below(255),
        g: crate::rng::random_u8_below(255),
        b: crate::rng::random_u8_below(255),
    }
}

} // verus!
