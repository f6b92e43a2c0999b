//! The PNG form of an image: the `png` crate decodes and encodes, this
//! module says what is handed to it and what is taken back.

use vstd::prelude::*;
use crate::error::ImageError;

verus! {

#[verifier::external_type_specification]
#[verifier::external_body]
pub struct ExDecodingError(png::DecodingError);

#[verifier::external_type_specification]
#[verifier::external_body]
pub struct ExEncodingError(png::EncodingError);

/// The samples that make up one pixel of a decoded frame.
#[derive(Copy, Clone, Debug, PartialEq, Eq, Structural)]
pub enum ColorFormat {
    /// One gray sample.
    Grayscale,
    /// Red, green, blue.
    Rgb,
    /// One index into a palette.
    Indexed,
    /// Gray, then alpha.
    GrayscaleAlpha,
    /// Red, green, blue, alpha.
    Rgba,
}

/// What a PNG stream holds: the dimensions of the image, the samples of a
/// pixel, and the bytes of its first frame, row after row.
pub struct DecodedFrame {
    pub width: u32,
    pub height: u32,
    pub format: ColorFormat,
    pub data: Vec<u8>,
}

/// A decoded frame as a mathematical value.
pub struct FrameView {
    pub width: nat,
    pub height: nat,
    pub format: ColorFormat,
    pub data: Seq<u8>,
}

impl View for DecodedFrame {
    type V = FrameView;

    open spec fn view(&self) -> FrameView {
        FrameView {
            width: self.width as nat,
            height: self.height as nat,
            format: self.format,
            data: self.data@,
        }
    }
}

/// What the PNG decoder makes of `bytes`: the frame, or nothing where it
/// refuses them.
pub uninterp spec fn png_decoded(bytes: Seq<u8>) -> Option<FrameView>;

/// The PNG stream that the encoder writes for an 8-bit RGBA image of `width`
/// by `height` pixels with the bytes `rgba`, or nothing where it refuses them.
pub uninterp spec fn png_encoded(width: u32, height: u32, rgba: Seq<u8>) -> Option<Seq<u8>>;

/// Runs the decoder of the `png` crate over `bytes`: `png::Decoder::new` and
/// `read_info` for the header, then `png::Reader::next_frame` into a buffer
/// of `output_buffer_size` bytes, cut to the frame's `buffer_size`.
///
/// Not proved: that what comes back is `png_decoded` of the bytes, that is,
/// that the decoder's answer depends on the bytes alone. The dimensions are
/// those of the header, the format is the frame's color type.
#[verifier::external_body]
fn decode_png(bytes: &[u8]) -> (r: Result<DecodedFrame, png::DecodingError>)
    ensures
        r is Ok ==> png_decoded(bytes@) == Some(r->Ok_0@),
        r is Err ==> png_decoded(bytes@) is None,
{
    let mut reader = png::Decoder::new(bytes).read_info()?;
    let mut data = vec![0; reader.output_buffer_size()];
    let frame = reader.next_frame(&mut data)?;
    data.truncate(frame.buffer_size());
    let format = match frame.color_type {
        png::ColorType::Grayscale => ColorFormat::Grayscale,
        png::ColorType::Rgb => ColorFormat::Rgb,
        png::ColorType::Indexed => ColorFormat::Indexed,
        png::ColorType::GrayscaleAlpha => ColorFormat::GrayscaleAlpha,
        png::ColorType::Rgba => ColorFormat::Rgba,
    };
    Ok(DecodedFrame { width: reader.info().width, height: reader.info().height, format, data })
}

/// Runs the encoder of the `png` crate: `png::Encoder::new` on an empty
/// buffer, `set_color` to RGBA, `write_header`, then
/// `png::Writer::write_image_data` with `rgba` and `finish`.
///
/// Not proved: that what comes back is `png_encoded` of the arguments, that
/// is, that the encoder's answer depends on them alone. The length of `rgba`
/// is asked for because the encoder computes with it unchecked.
#[verifier::external_body]
fn encode_png(width: u32, height: u32, rgba: &[u8]) -> (r: Result<Vec<u8>, png::EncodingError>)
    requires
        rgba@.len() == 4 * width * height,
    ensures
        r is Ok ==> png_encoded(width, height, rgba@) == Some(r->Ok_0@),
        r is Err ==> png_encoded(width, height, rgba@) is None,
{
    let mut out = Vec::new();
    let mut encoder = png::Encoder::new(&mut out, width, height);
    encoder.set_color(png::ColorType::Rgba);
    let mut writer = encoder.write_header()?;
    writer.write_image_data(rgba)?;
    writer.finish()?;
    Ok(out)
}

/// The frame that the PNG stream `bytes` holds.
pub fn decode(bytes: &[u8]) -> (r: Result<DecodedFrame, ImageError>)
    ensures
        match r {
            Ok(frame) => png_decoded(bytes@) == Some(frame@),
            Err(e) => e == ImageError::Decode && png_decoded(bytes@) is None,
        },
{
    match decode_png(bytes) {
        Ok(frame) => Ok(frame),
        Err(_) => Err(ImageError::Decode),
    }
}

/// Whether `rgba` holds four bytes for each pixel of an image of `width` by
/// `height` pixels.
pub open spec fn is_rgba_of(rgba: Seq<u8>, width: u32, height: u32) -> bool {
    rgba.len() == 4 * width * height
}

/// The PNG stream for the 8-bit RGBA image of `width` by `height` pixels
/// whose bytes are `rgba`. Bytes of another length are refused.
pub fn encode(width: u32, height: u32, rgba: &[u8]) -> (r: Result<Vec<u8>, ImageError>)
    ensures
        match r {
            Ok(out) => is_rgba_of(rgba@, width, height) && png_encoded(width, height, rgba@) == Some(
                out@,
            ),
            Err(e) => e == ImageError::Encode && (!is_rgba_of(rgba@, width, height) || png_encoded(
                width,
                height,
                rgba@,
            ) is None),
        },
{
    assert(0 <= 4 * width * height <= 4 * 0xffff_ffff * 0xffff_ffff) by (nonlinear_arith)
        requires
            0 <= width <= 0xffff_ffff,
            0 <= height <= 0xffff_ffff,
    ;
    let wanted: u128 = 4 * (width as u128) * (height as u128);
    if rgba.len() as u128 != wanted {
        return Err(ImageError::Encode);
    }
    match encode_png(width, height, rgba) {
        Ok(out) => Ok(out),
        Err(_) => Err(ImageError::Encode),
    }
}

} // verus!
