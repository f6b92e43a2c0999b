//! What can go wrong.

use vstd::prelude::*;

verus! {

/// The failures that this library reports.
#[derive(Copy, Clone, Debug, PartialEq, Eq, Structural)]
pub enum ImageError {
    /// The bytes are no PNG stream, or the stream does not hold 8-bit RGB.
    Decode,
    /// The PNG encoder refused the image.
    Encode,
    /// A pixel outside the buffer was read or written.
    OutOfBounds,
    /// A shape without extent, or a line without slope.
    DegenerateGeometry,
}

} // verus!
