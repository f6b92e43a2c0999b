//! Shapes that can be drawn onto an image.

use vstd::prelude::*;
use crate::error::ImageError;
use crate::image::scan::Scan;
use crate::image::Image;
use crate::rgba::Rgba;

pub mod circle;
pub mod line;
pub mod square;

pub use circle::Circle;
pub use line::Line;
pub use square::Square;

verus! {

/// A shape that can be drawn onto an image in one color.
pub trait Draw {
    /// What places the shape: a point, or a pair of points.
    type Endpoint;

    /// Whether the shape has no extent between these anchors.
    spec fn degenerate(&self, x: Self::Endpoint, y: Self::Endpoint) -> bool;

    /// The scan that draws the shape, placed by `x` and `y`, onto an image of
    /// `width` by `height` pixels.
    spec fn scan(&self, width: nat, height: nat, x: Self::Endpoint, y: Self::Endpoint) -> Scan;

    /// Draws the shape onto `img` in `color`, placed by `x` and `y`.
    ///
    /// A shape without extent is refused, and the image stays as it was. Else
    /// the shape's scan runs: it paints its positions in `color`, up to the
    /// first that lies outside the image.
    fn draw(&self, img: &mut Image, x: Self::Endpoint, y: Self::Endpoint, color: Rgba) -> (r: Result<
        (),
        ImageError,
    >)
        ensures
            final(img)@.width == old(img)@.width,
            final(img)@.height == old(img)@.height,
            self.degenerate(x, y) ==> r == Err::<(), ImageError>(ImageError::DegenerateGeometry)
                && final(img)@ == old(img)@,
            !self.degenerate(x, y) ==> self.scan(old(img)@.width, old(img)@.height, x, y).draws(
                old(img)@,
                color@,
                final(img)@,
                r,
            ),
    ;
}

/// The least coordinate within `reach` of `at`.
pub open spec fn low(at: int, reach: int) -> int {
    if at < reach {
        0
    } else {
        at - reach
    }
}

/// The greatest coordinate within `reach` of `at` in a dimension of `size`
/// pixels.
pub open spec fn high(at: int, reach: int, size: int) -> int {
    if at + reach >= size - 1 {
        size - 1
    } else {
        at + reach
    }
}

pub(crate) fn clamp_low(at: usize, reach: usize) -> (r: usize)
    ensures
        r == low(at as int, reach as int),
{
    if at < reach {
        0
    } else {
        at - reach
    }
}

pub(crate) fn clamp_high(at: usize, reach: usize, size: usize) -> (r: usize)
    requires
        size > 0,
    ensures
        r == high(at as int, reach as int, size as int),
{
    if at >= size - 1 || reach >= size - 1 - at {
        size - 1
    } else {
        at + reach
    }
}

} // verus!
