//! Images as mathematical values.

use vstd::prelude::*;
use crate::codec::{ColorFormat, FrameView};
use crate::error::ImageError;
use crate::rgba::{channel_bytes, Channels};

verus! {

/// An image as a mathematical value: its dimensions and its pixels, one
/// after the other.
pub struct ImageView {
    pub width: nat,
    pub height: nat,
    pub pixels: Seq<Channels>,
}

impl ImageView {
    /// Whether the image has as many pixels as its dimensions say.
    pub open spec fn wf(self) -> bool {
        self.pixels.len() == self.width * self.height
    }

    /// Where the pixel at (`x`, `y`) stands among the pixels: `x` counts
    /// rows of `width` pixels, `y` the pixels within a row.
    pub open spec fn offset(self, x: int, y: int) -> int {
        x * self.width + y
    }

    /// Whether (`x`, `y`) names a pixel of the image: `x` lies below the
    /// width, `y` below the height, and the pixel within the buffer.
    pub open spec fn in_bounds(self, x: int, y: int) -> bool {
        &&& 0 <= x < self.width
        &&& 0 <= y < self.height
        &&& self.offset(x, y) < self.width * self.height
    }

    /// The pixel at (`x`, `y`).
    pub open spec fn pixel(self, x: int, y: int) -> Channels
        recommends
            self.in_bounds(x, y),
    {
        self.pixels[self.offset(x, y)]
    }

    /// The image with the pixel at (`x`, `y`) replaced by `c`.
    pub open spec fn set(self, x: int, y: int, c: Channels) -> ImageView
        recommends
            self.in_bounds(x, y),
    {
        ImageView { pixels: self.pixels.update(self.offset(x, y), c), ..self }
    }

    /// The image with every pixel replaced by `c`.
    pub open spec fn fill(self, c: Channels) -> ImageView {
        ImageView { pixels: Seq::new(self.pixels.len(), |k: int| c), ..self }
    }

    /// The image of `width` by `height` pixels that are all transparent
    /// black.
    pub open spec fn blank(width: nat, height: nat) -> ImageView {
        ImageView { width, height, pixels: Seq::new(width * height, |k: int| (0u8, 0u8, 0u8, 0u8)) }
    }

    /// Whether one of the positions in `region` is the pixel that stands at
    /// `k` among the pixels.
    pub open spec fn touched(self, region: Set<(int, int)>, k: int) -> bool {
        exists|x: int, y: int| #[trigger] region.contains((x, y)) && self.offset(x, y) == k
    }

    /// The image with the pixels at the positions in `region` replaced by
    /// `c`.
    pub open spec fn paint(self, region: Set<(int, int)>, c: Channels) -> ImageView {
        ImageView {
            pixels: Seq::new(
                self.pixels.len(),
                |k: int| if self.touched(region, k) { c } else { self.pixels[k] },
            ),
            ..self
        }
    }

    /// The image as bytes: four for each pixel, red, green, blue, alpha.
    pub open spec fn bytes(self) -> Seq<u8> {
        Seq::new(4 * self.pixels.len(), |i: int| channel_bytes(self.pixels[i / 4])[i % 4])
    }

    /// The opaque image that an 8-bit RGB frame holds, where `frame` is one:
    /// three bytes for each pixel, and no more pixels than a buffer can hold.
    pub open spec fn from_frame(frame: FrameView) -> Result<ImageView, ImageError> {
        if frame.format == ColorFormat::Rgb && frame.data.len() == 3 * frame.width * frame.height && 4
            * frame.width * frame.height <= isize::MAX {
            Ok(
                ImageView {
                    width: frame.width,
                    height: frame.height,
                    pixels: Seq::new(
                        frame.width * frame.height,
                        |k: int| (frame.data[3 * k], frame.data[3 * k + 1], frame.data[3 * k + 2], 255u8),
                    ),
                },
            )
        } else {
            Err(ImageError::Decode)
        }
    }

    /// The image that a decoder's answer holds.
    pub open spec fn from_decoded(decoded: Option<FrameView>) -> Result<ImageView, ImageError> {
        match decoded {
            Some(frame) => Self::from_frame(frame),
            None => Err(ImageError::Decode),
        }
    }

    /// A blank image has the dimensions it was made with, and each of its
    /// pixels is transparent black.
    pub proof fn lemma_blank(width: nat, height: nat, x: int, y: int)
        ensures
            Self::blank(width, height).wf(),
            Self::blank(width, height).width == width,
            Self::blank(width, height).height == height,
            Self::blank(width, height).in_bounds(x, y) ==> Self::blank(width, height).pixel(x, y) == (
                0u8,
                0u8,
                0u8,
                0u8,
            ),
    {
        if Self::blank(width, height).in_bounds(x, y) {
            lemma_row_starts(x, width as int);
        }
    }

    /// A pixel that was set holds the color it was set to, and the image
    /// keeps its dimensions.
    pub proof fn lemma_set_then_pixel(self, x: int, y: int, c: Channels)
        requires
            self.wf(),
            self.in_bounds(x, y),
        ensures
            self.set(x, y, c).wf(),
            self.set(x, y, c).width == self.width,
            self.set(x, y, c).height == self.height,
            self.set(x, y, c).pixel(x, y) == c,
    {
        lemma_row_starts(x, self.width as int);
    }

    /// Setting a pixel leaves every other pixel as it was.
    pub proof fn lemma_set_elsewhere(self, x: int, y: int, c: Channels, a: int, b: int)
        requires
            self.wf(),
            self.in_bounds(x, y),
            self.in_bounds(a, b),
            self.offset(a, b) != self.offset(x, y),
        ensures
            self.set(x, y, c).pixel(a, b) == self.pixel(a, b),
    {
        lemma_row_starts(x, self.width as int);
        lemma_row_starts(a, self.width as int);
    }

    /// After a fill every pixel holds the color of the fill.
    pub proof fn lemma_fill_then_pixel(self, c: Channels, x: int, y: int)
        requires
            self.wf(),
            self.in_bounds(x, y),
        ensures
            self.fill(c).wf(),
            self.fill(c).in_bounds(x, y),
            self.fill(c).pixel(x, y) == c,
    {
        lemma_row_starts(x, self.width as int);
    }

    /// The first row past the last and the first column past the last hold
    /// no pixel.
    pub proof fn lemma_past_the_edges(self)
        ensures
            !self.in_bounds(self.width as int, 0),
            !self.in_bounds(0, self.height as int),
    {
    }

    /// In an image that is at least as high as wide, every position below
    /// the width and the height names a pixel.
    pub proof fn lemma_in_bounds_of_tall(self, x: int, y: int)
        requires
            self.width <= self.height,
        ensures
            self.in_bounds(x, y) <==> 0 <= x < self.width && 0 <= y < self.height,
    {
        if 0 <= x < self.width && 0 <= y < self.height {
            assert(x * self.width + y < self.width * self.height) by (nonlinear_arith)
                requires
                    0 <= x < self.width,
                    0 <= y < self.height,
                    self.width <= self.height,
            ;
        }
    }

    /// The pixel at (`x`, `y`) stands in the four bytes that begin at four
    /// times its offset.
    pub proof fn lemma_pixel_bytes(self, x: int, y: int)
        requires
            self.wf(),
            self.in_bounds(x, y),
        ensures
            4 * self.offset(x, y) + 4 <= self.bytes().len(),
            self.bytes().subrange(4 * self.offset(x, y), 4 * self.offset(x, y) + 4) == channel_bytes(
                self.pixel(x, y),
            ),
    {
        lemma_row_starts(x, self.width as int);
        let at = 4 * self.offset(x, y);
        assert(self.bytes().subrange(at, at + 4) =~= channel_bytes(self.pixel(x, y)));
    }

    /// Of two positions within the width of a row, each names a pixel of its
    /// own.
    pub proof fn lemma_offset_injective(self, x: int, y: int, a: int, b: int)
        requires
            0 <= y < self.width,
            0 <= b < self.width,
            self.offset(x, y) == self.offset(a, b),
        ensures
            x == a,
            y == b,
    {
        let w = self.width as int;
        vstd::arithmetic::div_mod::lemma_fundamental_div_mod_converse(self.offset(x, y), w, x, y);
        vstd::arithmetic::div_mod::lemma_fundamental_div_mod_converse(self.offset(a, b), w, a, b);
    }

    /// Painting no position changes nothing.
    pub proof fn lemma_paint_nothing(self, c: Channels)
        ensures
            self.paint(Set::empty(), c) == self,
    {
        assert(self.paint(Set::empty(), c).pixels =~= self.pixels);
    }

    /// Setting a pixel of a painted image paints one more position.
    pub proof fn lemma_paint_one_more(self, region: Set<(int, int)>, x: int, y: int, c: Channels)
        requires
            self.in_bounds(x, y),
            self.wf(),
        ensures
            self.paint(region, c).set(x, y, c) == self.paint(region.insert((x, y)), c),
    {
        let more = region.insert((x, y));
        assert forall|k: int| 0 <= k < self.pixels.len() implies #[trigger] self.paint(region, c).set(x, y, c).pixels[k]
            == self.paint(more, c).pixels[k] by {
            if self.touched(region, k) {
                let (a, b) = choose|a: int, b: int| #[trigger] region.contains((a, b)) && self.offset(a, b) == k;
                assert(more.contains((a, b)));
            }
            if k == self.offset(x, y) {
                assert(more.contains((x, y)));
            }
        }
        assert(self.paint(region, c).set(x, y, c).pixels =~= self.paint(more, c).pixels);
    }

    /// Where all that is painted lies within the width of a row, a pixel
    /// within that width holds the new color if its position was painted, and
    /// its old color if not.
    pub proof fn lemma_paint_then_pixel(self, region: Set<(int, int)>, c: Channels, x: int, y: int)
        requires
            self.wf(),
            self.in_bounds(x, y),
            y < self.width,
            forall|p: (int, int)| #[trigger] region.contains(p) ==> 0 <= p.1 < self.width,
        ensures
            self.paint(region, c).pixel(x, y) == if region.contains((x, y)) {
                c
            } else {
                self.pixel(x, y)
            },
    {
        lemma_row_starts(x, self.width as int);
        let k = self.offset(x, y);
        if self.touched(region, k) {
            let (a, b) = choose|a: int, b: int| #[trigger] region.contains((a, b)) && self.offset(a, b) == k;
            self.lemma_offset_injective(x, y, a, b);
        }
    }
}

/// No row begins before the first pixel.
proof fn lemma_row_starts(x: int, width: int)
    requires
        0 <= x,
        0 <= width,
    ensures
        0 <= x * width,
{
    assert(0 <= x * width) by (nonlinear_arith)
        requires
            0 <= x,
            0 <= width,
    ;
}

} // verus!
