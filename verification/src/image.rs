//! The pixel buffer.

use vstd::prelude::*;
use crate::codec::{decode, encode, png_decoded, png_encoded, ColorFormat, DecodedFrame};
use crate::error::ImageError;
use crate::image::view::ImageView;
use crate::rgba::{channel_bytes, Rgba};

pub mod draw;
pub mod scan;
pub mod view;

verus! {

/// A rectangle of RGBA pixels.
pub struct Image {
    width: usize,
    height: usize,
    data: Vec<u8>,
}

impl View for Image {
    type V = ImageView;

    closed spec fn view(&self) -> ImageView {
        ImageView {
            width: self.width as nat,
            height: self.height as nat,
            pixels: Seq::new(
                (self.width * self.height) as nat,
                |k: int| (self.data@[4 * k], self.data@[4 * k + 1], self.data@[4 * k + 2], self.data@[4 * k + 3]),
            ),
        }
    }
}

impl Image {
    #[verifier::type_invariant]
    spec fn inv(self) -> bool {
        self.data@.len() == 4 * self.width * self.height
    }

    /// The view of every image is well formed.
    pub proof fn lemma_view_wf(self)
        ensures
            self@.wf(),
    {
    }

    /// A transparent black image of `width` by `height` pixels.
    pub fn new(width: usize, height: usize) -> (img: Self)
        requires
            4 * width * height <= isize::MAX,
        ensures
            img@.width == width,
            img@.height == height,
            img@ == ImageView::blank(width as nat, height as nat),
    {
        assert(4 * width * height == 4 * (width * height)) by (nonlinear_arith);
        assert(width * height >= 0) by (nonlinear_arith);
        let n: usize = width * height;
        let img = Self { width, height, data: vec![0u8; 4 * n] };
        assert(img@.pixels =~= ImageView::blank(width as nat, height as nat).pixels);
        img
    }

    /// The width and the height.
    pub fn shape(&self) -> (s: (usize, usize))
        ensures
            s.0 == self@.width,
            s.1 == self@.height,
    {
        (self.width, self.height)
    }

    /// The bytes of the pixel at (`x`, `y`) within the buffer, where there is
    /// such a pixel.
    pub fn index(&self, x: usize, y: usize) -> (r: Result<core::ops::Range<usize>, ImageError>)
        ensures
            self@.in_bounds(x as int, y as int) ==> r is Ok && r->Ok_0.start == 4 * self@.offset(
                x as int,
                y as int,
            ) && r->Ok_0.end == r->Ok_0.start + 4,
            !self@.in_bounds(x as int, y as int) ==> r == Err::<core::ops::Range<usize>, ImageError>(
                ImageError::OutOfBounds,
            ),
    {
        proof {
            use_type_invariant(self);
            lemma_rows(self.width as int, self.height as int, x as int);
            assert(4 * self.width * self.height == 4 * (self.width * self.height))
                by (nonlinear_arith);
        }
        if x >= self.width || y >= self.height || x >= self.height {
            return Err(ImageError::OutOfBounds);
        }
        let cells: usize = self.data.len() / 4;
        let cell: usize = x * self.width + y;
        if cell >= cells {
            return Err(ImageError::OutOfBounds);
        }
        Ok(4 * cell..4 * cell + 4)
    }

    /// The color of the pixel at (`x`, `y`).
    pub fn at(&self, x: usize, y: usize) -> (r: Result<Rgba, ImageError>)
        ensures
            self@.in_bounds(x as int, y as int) ==> r is Ok && r->Ok_0@ == self@.pixel(
                x as int,
                y as int,
            ),
            !self@.in_bounds(x as int, y as int) ==> r == Err::<Rgba, ImageError>(
                ImageError::OutOfBounds,
            ),
    {
        let at = self.index(x, y)?.start;
        proof {
            use_type_invariant(self);
            assert(4 * self.width * self.height == 4 * (self.width * self.height))
                by (nonlinear_arith);
        }
        Ok(Rgba::new(self.data[at], self.data[at + 1], self.data[at + 2], self.data[at + 3]))
    }

    /// Gives the pixel at (`x`, `y`) the color `color`.
    pub fn set(&mut self, x: usize, y: usize, color: Rgba) -> (r: Result<(), ImageError>)
        ensures
            old(self)@.in_bounds(x as int, y as int) ==> r is Ok && final(self)@ == old(self)@.set(
                x as int,
                y as int,
                color@,
            ),
            !old(self)@.in_bounds(x as int, y as int) ==> r == Err::<(), ImageError>(
                ImageError::OutOfBounds,
            ) && final(self)@ == old(self)@,
    {
        let at = self.index(x, y)?.start;
        proof {
            use_type_invariant(&*self);
            assert(4 * self.width * self.height == 4 * (self.width * self.height))
                by (nonlinear_arith);
        }
        let bytes = color.as_array();
        self.data[at] = bytes[0];
        self.data[at + 1] = bytes[1];
        self.data[at + 2] = bytes[2];
        self.data[at + 3] = bytes[3];
        assert(self@.pixels =~= old(self)@.set(x as int, y as int, color@).pixels);
        Ok(())
    }

    /// Gives every pixel the color `color`.
    pub fn fill(&mut self, color: Rgba)
        ensures
            final(self)@ == old(self)@.fill(color@),
    {
        proof {
            use_type_invariant(&*self);
            assert(4 * self.width * self.height == 4 * (self.width * self.height))
                by (nonlinear_arith);
        }
        let bytes = color.as_array();
        let n = self.data.len();
        let mut at: usize = 0;
        while at < n
            invariant
                self.width == old(self).width,
                self.height == old(self).height,
                self.data@.len() == n,
                n == 4 * (self.width * self.height),
                n == 4 * self.width * self.height,
                at <= n,
                at % 4 == 0,
                bytes@ == channel_bytes(color@),
                forall|i: int| 0 <= i < at ==> self.data@[i] == #[trigger] bytes@[i % 4],
            decreases n - at,
        {
            self.data[at] = bytes[0];
            self.data[at + 1] = bytes[1];
            self.data[at + 2] = bytes[2];
            self.data[at + 3] = bytes[3];
            at += 4;
        }
        assert(self@.pixels =~= old(self)@.fill(color@).pixels) by {
            assert forall|k: int| 0 <= k < self.width * self.height implies self@.pixels[k]
                == color@ by {
                assert(self.data@[4 * k] == bytes@[(4 * k) % 4]);
                assert(self.data@[4 * k + 1] == bytes@[(4 * k + 1) % 4]);
                assert(self.data@[4 * k + 2] == bytes@[(4 * k + 2) % 4]);
                assert(self.data@[4 * k + 3] == bytes@[(4 * k + 3) % 4]);
            }
        }
    }

    /// The pixels as bytes, four for each pixel.
    pub fn as_bytes(&self) -> (bytes: &[u8])
        ensures
            bytes@ == self@.bytes(),
    {
        proof {
            use_type_invariant(self);
            assert(4 * self.width * self.height == 4 * (self.width * self.height))
                by (nonlinear_arith);
            assert(self.data@ =~= self@.bytes());
        }
        self.data.as_slice()
    }

    /// The image that `frame` holds, opaque: 255 for alpha follows the three
    /// bytes of each pixel. A frame that is not 8-bit RGB is refused.
    pub fn from_frame(frame: &DecodedFrame) -> (r: Result<Self, ImageError>)
        ensures
            viewed(r) == ImageView::from_frame(frame@),
    {
        assert(0 <= frame.width * frame.height <= 0xffff_ffff * 0xffff_ffff) by (nonlinear_arith)
            requires
                0 <= frame.width <= 0xffff_ffff,
                0 <= frame.height <= 0xffff_ffff,
        ;
        let cells: u64 = (frame.width as u64) * (frame.height as u64);
        assert(3 * frame.width * frame.height == 3 * cells && 4 * frame.width * frame.height == 4
            * cells) by (nonlinear_arith)
            requires
                cells == frame.width * frame.height,
        ;
        match frame.format {
            ColorFormat::Rgb => {},
            _ => {
                return Err(ImageError::Decode);
            },
        }
        if frame.data.len() as u128 != 3 * (cells as u128) || 4 * (cells as u128) > isize::MAX as u128 {
            return Err(ImageError::Decode);
        }
        let n: usize = cells as usize;
        let mut data: Vec<u8> = Vec::with_capacity(4 * n);
        let mut k: usize = 0;
        while k < n
            invariant
                k <= n,
                frame.data@.len() == 3 * n,
                4 * n <= isize::MAX,
                data@.len() == 4 * k,
                forall|i: int| 0 <= i < 4 * k ==> #[trigger] data@[i] == opaque_byte(frame.data@, i),
            decreases n - k,
        {
            data.push(frame.data[3 * k]);
            data.push(frame.data[3 * k + 1]);
            data.push(frame.data[3 * k + 2]);
            data.push(255);
            k += 1;
        }
        let img = Self { width: frame.width as usize, height: frame.height as usize, data };
        assert(img@.pixels =~= ImageView::from_frame(frame@)->Ok_0.pixels);
        Ok(img)
    }

    /// The image that the PNG stream `bytes` holds. A stream that the decoder
    /// refuses, or that does not hold 8-bit RGB, is refused.
    pub fn load(bytes: &[u8]) -> (r: Result<Self, ImageError>)
        ensures
            viewed(r) == ImageView::from_decoded(png_decoded(bytes@)),
    {
        match decode(bytes) {
            Ok(frame) => Self::from_frame(&frame),
            Err(e) => Err(e),
        }
    }

    /// The image as a PNG stream of 8-bit RGBA. An image that is too wide or
    /// too high for a PNG stream is refused, and so is one that the encoder
    /// refuses.
    ///
    /// `load` does not take such a stream back: it reads RGB, and this is
    /// RGBA.
    pub fn write(&self) -> (r: Result<Vec<u8>, ImageError>)
        ensures
            match r {
                Ok(out) => self@.width <= u32::MAX && self@.height <= u32::MAX && png_encoded(
                    self@.width as u32,
                    self@.height as u32,
                    self@.bytes(),
                ) == Some(out@),
                Err(e) => e == ImageError::Encode && (self@.width > u32::MAX || self@.height > u32::MAX
                    || png_encoded(self@.width as u32, self@.height as u32, self@.bytes()) is None),
            },
    {
        if self.width > u32::MAX as usize || self.height > u32::MAX as usize {
            return Err(ImageError::Encode);
        }
        assert(4 * (self@.width * self@.height) == 4 * (self.width as u32) * (self.height as u32))
            by (nonlinear_arith)
            requires
                self@.width == self.width as u32,
                self@.height == self.height as u32,
        ;
        encode(self.width as u32, self.height as u32, self.as_bytes())
    }
}

/// Byte `i` of the RGBA bytes that stand for the RGB bytes `rgb` made opaque.
spec fn opaque_byte(rgb: Seq<u8>, i: int) -> u8 {
    if i % 4 == 3 {
        255u8
    } else {
        rgb[3 * (i / 4) + i % 4]
    }
}

/// The outcome of making an image, the image taken by its view.
pub open spec fn viewed(r: Result<Image, ImageError>) -> Result<ImageView, ImageError> {
    match r {
        Ok(img) => Ok(img@),
        Err(e) => Err(e),
    }
}

/// Row `x` of a `width` by `height` grid begins before the grid ends exactly
/// when `x` is less than `height`.
proof fn lemma_rows(width: int, height: int, x: int)
    requires
        0 <= x,
        0 <= width,
        0 <= height,
    ensures
        x < height ==> x * width + width <= width * height,
        x >= height ==> x * width >= width * height,
        width * height >= 0,
        width >= 1 ==> height <= width * height,
{
    assert(width >= 1 ==> height <= width * height) by (nonlinear_arith)
        requires
            0 <= height,
    ;
    assert(x < height ==> x * width + width <= width * height) by (nonlinear_arith)
        requires
            0 <= x,
            0 <= width,
    ;
    assert(x >= height ==> x * width >= width * height) by (nonlinear_arith)
        requires
            0 <= width,
    ;
    assert(width * height >= 0) by (nonlinear_arith)
        requires
            0 <= width,
            0 <= height,
    ;
}

} // verus!
