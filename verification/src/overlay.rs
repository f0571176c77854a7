//! Layout, metrics and compositing for text overlaid on a raster image.

use vstd::prelude::*;

pub mod handlers;
pub mod helpers;
pub mod image;
pub mod layout;

verus! {

/// Errors the overlay engine reports to its caller.
#[derive(Clone, Copy, Debug, PartialEq, Eq, Structural)]
pub enum CoverError {
    /// The input bytes did not decode to a raster image.
    DecodeError,
    /// Autosizing was asked to fit text whose total advance is zero
    /// (for instance an empty line); such input is rejected.
    DegenerateText,
}

} // verus!
