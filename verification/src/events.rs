//! Events that change the canvas.

use crate::canvas::PixelColor;
use vstd::prelude::*;

verus! {

/// Something to be done to the canvas.
///
/// The set is open: consumers skip the variants they do not handle.
#[derive(Clone, Copy, Debug, PartialEq, Eq)]
#[non_exhaustive]
pub enum Event {
    /// Place or overwrite one pixel.
    PlacePixel { x: u16, y: u16, color: PixelColor },
    /// Place a label of at most eight bytes, padded with zero bytes.
    /// Reserved: nothing produces it yet.
    PlaceLabel { x: u16, y: u16, text: [u8; 8] },
}

} // verus!
