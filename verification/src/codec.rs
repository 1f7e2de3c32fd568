//! Trusted boundary to the byte-level codecs.
//!
//! The pipeline exchanges images as base64 text and sends its mask as a
//! PNG. Encoding and decoding are done by outside crates; each call is
//! wrapped here once, with a contract naming its result. Every caller's
//! own guarantees are proved from these contracts.

use vstd::prelude::*;

verus! {

/// The base64 text (standard alphabet, padded) of a byte sequence.
pub uninterp spec fn b64_of(bytes: Seq<u8>) -> Seq<char>;

/// What base64 decoding yields for a text: the payload bytes, or `None`
/// when the text is not valid base64.
pub uninterp spec fn b64_decoded(text: Seq<char>) -> Option<Seq<u8>>;

/// The image dimensions recorded in an encoded image: `None` when the
/// bytes are not a decodable image.
pub uninterp spec fn image_dims_of(bytes: Seq<u8>) -> Option<(u32, u32)>;

/// What PNG encoding yields for an 8-bit single-channel raster in
/// row-major order: the file bytes, or `None` when the raster cannot
/// be encoded (a zero dimension).
pub uninterp spec fn png_gray_of(width: u32, height: u32, pixels: Seq<u8>) -> Option<Seq<u8>>;

/// Relies on base64's `Engine::encode` with the `STANDARD` engine: a
/// deterministic encoding of the input bytes alone.
#[verifier::external_body]
pub(crate) fn b64_encode(bytes: &[u8]) -> (r: String)
    ensures
        r@ == b64_of(bytes@),
{
    base64::Engine::encode(&base64::engine::general_purpose::STANDARD, bytes)
}

/// Relies on base64's `Engine::decode` with the `STANDARD` engine:
/// success and payload depend on the input text alone.
#[verifier::external_body]
pub(crate) fn b64_decode(text: &str) -> (r: Result<Vec<u8>, String>)
    ensures
        match r {
            Ok(bytes) => b64_decoded(text@) == Some(bytes@),
            Err(_) => b64_decoded(text@) is None,
        },
{
    match base64::Engine::decode(&base64::engine::general_purpose::STANDARD, text) {
        Ok(bytes) => Ok(bytes),
        Err(e) => Err(format!("{e}")),
    }
}

/// Relies on image's `load_from_memory` and the decoded image's `width`
/// and `height`: a pure decode whose outcome depends on the bytes alone.
#[verifier::external_body]
pub(crate) fn probe_image_dims(bytes: &[u8]) -> (r: Result<(u32, u32), String>)
    ensures
        match r {
            Ok(dims) => image_dims_of(bytes@) == Some(dims),
            Err(_) => image_dims_of(bytes@) is None,
        },
{
    match image::load_from_memory(bytes) {
        Ok(img) => Ok((img.width(), img.height())),
        Err(e) => Err(format!("{e}")),
    }
}

/// Relies on image's `ImageBuffer::from_raw` and `write_to` with the
/// PNG format: a deterministic lossless encoding of the given
/// single-channel raster. For an exact-length 8-bit gray raster written
/// to memory, the encoder refuses only a zero width or height, so
/// success is promised for every other size; nothing is promised of
/// the failure text.
#[verifier::external_body]
pub(crate) fn png_encode_gray(width: u32, height: u32, pixels: Vec<u8>) -> (r: Result<
    Vec<u8>,
    String,
>)
    requires
        pixels@.len() == width * height,
    ensures
        match r {
            Ok(png) => png_gray_of(width, height, pixels@) == Some(png@),
            Err(_) => png_gray_of(width, height, pixels@) is None,
        },
        width > 0 && height > 0 ==> r is Ok,
{
    let buffer: image::ImageBuffer<image::Luma<u8>, Vec<u8>> = match image::ImageBuffer::from_raw(
        width,
        height,
        pixels,
    ) {
        Some(b) => b,
        None => {
            return Err("raster size mismatch".to_string());
        },
    };
    let mut cursor = std::io::Cursor::new(Vec::new());
    match buffer.write_to(&mut cursor, image::ImageFormat::Png) {
        Ok(()) => Ok(cursor.into_inner()),
        Err(e) => Err(format!("{e}")),
    }
}

} // verus!
