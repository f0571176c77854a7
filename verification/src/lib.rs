//! Text-overlay engine for cover images.
//!
//! The crate lays text blocks out on a raster canvas (five placement
//! strategies with autosizing and stacking), turns per-pixel glyph coverage
//! samples into blended pixel writes (two blend modes), and owns the mutable
//! RGBA buffer those writes go to.  Fractional quantities are fixed point:
//! positions and font metrics in thousandths of a pixel, scale factors in
//! millionths, alpha and coverage in 255ths.

use vstd::prelude::*;

pub mod overlay;

verus! {

/// Multiplies two factors, as exposed at the binding boundary.
pub fn multiply(a: u32, b: u32) -> (r: u32)
    requires
        a * b <= u32::MAX,
    ensures
        r == a * b,
{
    a * b
}

} // verus!
