use image::codecs::png::PngEncoder;
use image::{ColorType, ImageEncoder, ImageError};
use vstd::prelude::*;

verus! {

#[verifier::external_type_specification]
#[verifier::external_body]
pub struct ExImageError(ImageError);

/// The PNG file that the image crate writes for an 8-bit grayscale raster of
/// `width` by `height` pixels holding `pixels`, row-major.
pub uninterp spec fn png_gray_of(pixels: Seq<u8>, width: u32, height: u32) -> Seq<u8>;

/// The image crate encodes an 8-bit grayscale raster of `width` by `height`
/// pixels holding `pixels` without error.
pub uninterp spec fn png_gray_encodes(pixels: Seq<u8>, width: u32, height: u32) -> bool;

/// Relies on image's PngEncoder::write_image with ColorType::L8, writing
/// into memory: on success the bytes written are the PNG file for the
/// raster; whether it succeeds depends on the raster alone, and a zero side
/// is refused. It panics unless the buffer holds exactly width × height
/// bytes.
#[verifier::external_body]
fn write_png_gray(pixels: &[u8], width: u32, height: u32) -> (r: Result<Vec<u8>, ImageError>)
    requires
        pixels@.len() == width * height,
    ensures
        r is Ok <==> png_gray_encodes(pixels@, width, height),
        r matches Ok(bytes) ==> bytes@ == png_gray_of(pixels@, width, height),
        width == 0 || height == 0 ==> r is Err,
{
    let mut out: Vec<u8> = Vec::new();
    let written = PngEncoder::new(&mut out).write_image(pixels, width, height, ColorType::L8);
    written.map(move |_| out)
}

/// Why a raster could not be encoded.
#[derive(Clone, Copy, Debug, PartialEq, Eq, Structural)]
pub enum EncodeError {
    /// A side of the raster does not fit in 32 bits.
    TooLarge,
    /// The buffer does not hold exactly width × height bytes.
    SizeMismatch,
    /// The encoder reported a failure.
    Encoder,
}

/// Both sides of the raster fit in the 32 bits that PNG gives them.
pub open spec fn fits_png(bounds: (usize, usize)) -> bool {
    bounds.0 <= u32::MAX && bounds.1 <= u32::MAX
}

/// Encodes a grayscale raster of `bounds.0` columns by `bounds.1` rows as a
/// PNG file in memory.
pub fn encode_image(pixels: &[u8], bounds: (usize, usize)) -> (r: Result<Vec<u8>, EncodeError>)
    ensures
        r == Err::<Vec<u8>, EncodeError>(EncodeError::TooLarge) <==> !fits_png(bounds),
        r == Err::<Vec<u8>, EncodeError>(EncodeError::SizeMismatch) <==> fits_png(bounds)
            && pixels@.len() != bounds.0 * bounds.1,
        r matches Ok(bytes) ==> fits_png(bounds) && pixels@.len() == bounds.0 * bounds.1
            && bytes@ == png_gray_of(pixels@, bounds.0 as u32, bounds.1 as u32),
        r == Err::<Vec<u8>, EncodeError>(EncodeError::Encoder) <==> fits_png(bounds)
            && pixels@.len() == bounds.0 * bounds.1 && !png_gray_encodes(
            pixels@,
            bounds.0 as u32,
            bounds.1 as u32,
        ),
        fits_png(bounds) && pixels@.len() == bounds.0 * bounds.1 && png_gray_encodes(
            pixels@,
            bounds.0 as u32,
            bounds.1 as u32,
        ) ==> r is Ok,
        bounds.0 == 0 || bounds.1 == 0 ==> r is Err,
{
    let (width, height) = bounds;
    if width > u32::MAX as usize || height > u32::MAX as usize {
        return Err(EncodeError::TooLarge);
    }
    let w: u32 = width as u32;
    let h: u32 = height as u32;
    assert((w as nat) * (h as nat) <= (u32::MAX as nat) * (u32::MAX as nat)) by (nonlinear_arith)
        requires
            w <= u32::MAX,
            h <= u32::MAX,
    ;
    let area: u64 = (w as u64) * (h as u64);
    if pixels.len() as u64 != area {
        return Err(EncodeError::SizeMismatch);
    }
    match write_png_gray(pixels, w, h) {
        Ok(bytes) => Ok(bytes),
        Err(_) => Err(EncodeError::Encoder),
    }
}

} // verus!
