//! Encoding an RGBA image as a sixel graphic.

use vstd::prelude::*;

verus! {

#[verifier::external_type_specification]
#[verifier::external_body]
pub struct ExSixelError(icy_sixel::SixelError);

/// The sixel text the encoder produces for an RGBA image of `width` x
/// `height` pixels, or `None` when it refuses the image.
pub uninterp spec fn sixel_text(pixels: Seq<u8>, width: usize, height: usize) -> Option<Seq<char>>;

/// Encodes an RGBA image as sixel text (`SixelImage::from_rgba` and
/// `SixelImage::encode`). The result is the one named by `sixel_text`; the
/// encoder refuses an empty image and a buffer that does not hold exactly
/// four bytes per pixel.
#[verifier::external_body]
fn sixel_encode(pixels: Vec<u8>, width: usize, height: usize) -> (r: Result<String, icy_sixel::SixelError>)
    ensures
        match r {
            Ok(s) => sixel_text(pixels@, width, height) == Some(s@),
            Err(_) => sixel_text(pixels@, width, height) is None,
        },
        r is Ok ==> width > 0 && height > 0 && pixels@.len() == width * height * 4,
{
    icy_sixel::SixelImage::from_rgba(pixels, width, height).encode()
}

/// An image the sixel encoder refused.
#[derive(Debug)]
pub struct EncodeError;

/// The sixel text of an RGBA image of `width` x `height` pixels.
pub fn encode_rgba(bytes: &[u8], width: u32, height: u32) -> (r: Result<String, EncodeError>)
    ensures
        match r {
            Ok(s) => sixel_text(bytes@, width as usize, height as usize) == Some(s@),
            Err(_) => sixel_text(bytes@, width as usize, height as usize) is None,
        },
        r is Ok ==> width > 0 && height > 0 && bytes@.len() == width * height * 4,
{
    let pixels = vstd::slice::slice_to_vec(bytes);
    match sixel_encode(pixels, width as usize, height as usize) {
        Ok(s) => Ok(s),
        Err(_) => Err(EncodeError),
    }
}

} // verus!
