//! What the `image` crate tells about encoded images: their format, from the
//! leading bytes, and their dimensions, from the header.

use vstd::prelude::*;

use std::io::Cursor;

verus! {

/// The image formats that the protocol deals in; every other one is `Other`.
#[derive(Debug, Clone, Copy, PartialEq, Eq, Structural)]
pub enum ImageFormat {
    Png,
    Jpeg,
    WebP,
    Other,
}

/// The format that `image::guess_format` recognises from the leading bytes,
/// or `None` where it recognises none.
pub uninterp spec fn guessed_format(bytes: Seq<u8>) -> Option<ImageFormat>;

/// The width and height that `ImageReader::with_format(..).into_dimensions()`
/// reads from the header, or `None` where it reports an error.
pub uninterp spec fn header_dimensions(bytes: Seq<u8>, format: ImageFormat) -> Option<(u32, u32)>;

/// `image::guess_format`: the format whose magic bytes start `bytes`.
#[verifier::external_body]
pub(crate) fn guess_format(bytes: &[u8]) -> (r: Option<ImageFormat>)
    ensures
        r == guessed_format(bytes@),
{
    match image::guess_format(bytes) {
        Ok(image::ImageFormat::Png) => Some(ImageFormat::Png),
        Ok(image::ImageFormat::Jpeg) => Some(ImageFormat::Jpeg),
        Ok(image::ImageFormat::WebP) => Some(ImageFormat::WebP),
        Ok(_) => Some(ImageFormat::Other),
        Err(_) => None,
    }
}

/// `ImageReader::with_format(..).into_dimensions()` of the `image` crate: the
/// dimensions in the header of an image of a given format (PNG, JPEG or WebP).
#[verifier::external_body]
pub(crate) fn dimensions(bytes: &[u8], format: ImageFormat) -> (r: Option<(u32, u32)>)
    requires
        format != ImageFormat::Other,
    ensures
        r == header_dimensions(bytes@, format),
{
    let format = match format {
        ImageFormat::Png => image::ImageFormat::Png,
        ImageFormat::Jpeg => image::ImageFormat::Jpeg,
        _ => image::ImageFormat::WebP,
    };
    image::ImageReader::with_format(Cursor::new(bytes), format).into_dimensions().ok()
}

} // verus!
