//! The chart generator's invocation: the settings under which a pixelized
//! raster is composed into a printable cross-stitch chart.

use vstd::prelude::*;

verus! {

/// Settings of one chart generation run.
#[derive(Clone, Debug)]
pub struct Args {
    /// Path to the pixelized input image.
    pub input: String,
    /// Path to the output document.
    pub output: String,
    /// Title of the document.
    pub title: String,
    /// Whom the piece is by; when absent the cover names it an original
    /// pattern.
    pub by: Option<String>,
}

/// Vertical offset of the cover's second line, in millimeters from the top:
/// a by-line sits a little lower than the default line.
pub fn by_line_offset(by_present: bool) -> (r: u64)
    ensures
        r == if by_present {
            45int
        } else {
            42int
        },
{
    if by_present {
        45
    } else {
        42
    }
}

} // verus!
