//! Images pasted from the clipboard, handed to the editor as Base64 PNG data.
use image::ImageEncoder;
use vstd::prelude::*;

use crate::files::{base64_encode, base64_encoded};

verus! {

/// What the PNG encoder of the `image` crate writes for an RGBA image of `width` by
/// `height` pixels, or the message of its error.
pub uninterp spec fn png_encoded(rgba: Seq<u8>, width: u32, height: u32) -> Result<
    Seq<u8>,
    Seq<char>,
>;

/// The bytes or message that an encoding outcome holds.
pub open spec fn png_view(r: Result<Vec<u8>, String>) -> Result<Seq<u8>, Seq<char>> {
    match r {
        Ok(b) => Ok(b@),
        Err(e) => Err(e@),
    }
}

/// Calls `image::codecs::png::PngEncoder::write_image` on an RGBA image. Trusted: the
/// outcome depends on the pixels and the size alone; the PNG format is not stated. The
/// encoder panics unless there are four bytes for every pixel, hence the precondition.
#[verifier::external_body]
fn png_encode(rgba: &[u8], width: u32, height: u32) -> (r: Result<Vec<u8>, String>)
    requires
        rgba@.len() == width as int * height as int * 4,
    ensures
        png_view(r) == png_encoded(rgba@, width, height),
{
    let mut png: Vec<u8> = Vec::new();
    let encoder = image::codecs::png::PngEncoder::new(&mut png);
    match encoder.write_image(rgba, width, height, image::ExtendedColorType::Rgba8) {
        Ok(()) => Ok(png),
        Err(e) => Err(e.to_string()),
    }
}

/// What the clipboard image command answers for an image: its PNG encoding in Base64, or
/// the encoder's message.
pub open spec fn clipboard_answer(rgba: Seq<u8>, width: u32, height: u32) -> Result<
    Seq<char>,
    Seq<char>,
> {
    match png_encoded(rgba, width, height) {
        Ok(png) => Ok(base64_encoded(png)),
        Err(e) => Err(e),
    }
}

/// The texts that an answer holds.
pub open spec fn answer_view(r: Result<String, String>) -> Result<Seq<char>, Seq<char>> {
    match r {
        Ok(s) => Ok(s@),
        Err(e) => Err(e@),
    }
}

/// Encodes an RGBA image (four bytes a pixel, row by row) as PNG, in Base64.
pub fn png_base64(rgba: &[u8], width: u32, height: u32) -> (r: Result<String, String>)
    requires
        rgba@.len() == width as int * height as int * 4,
    ensures
        answer_view(r) == clipboard_answer(rgba@, width, height),
{
    match png_encode(rgba, width, height) {
        Ok(png) => Ok(base64_encode(png.as_slice())),
        Err(e) => Err(e),
    }
}

} // verus!
