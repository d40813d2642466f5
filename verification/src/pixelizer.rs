//! The pixelizer's invocation: the settings under which an input raster is
//! turned into the palette-constrained pattern raster.

use vstd::prelude::*;

verus! {

/// Settings of one pixelizer run.
#[derive(Clone, Debug)]
pub struct Args {
    /// Path to the input image.
    pub input: String,
    /// Path to the output image.
    pub output: String,
    /// Greatest side length of the output, in output pixels.
    pub max_side_size: u16,
    /// Total color count of the output.
    pub color_count: u8,
}

} // verus!
