//! Images that a user sends a friend: the limits on the picked file, and the
//! blending of a translucent image onto white before it is compressed.

use vstd::prelude::*;

verus! {

/// The largest image file that may be picked, in bytes.
pub const MAX_SOURCE_BYTES: usize = 25 * 1024 * 1024;

/// Checks the size of a picked image file.
pub fn check_source_size(len: usize) -> (r: Result<(), String>)
    ensures
        r is Ok <==> 0 < len <= MAX_SOURCE_BYTES,
        r matches Err(e) ==> e@ == if len == 0 {
            "Choose an image file"@
        } else {
            "The selected image must be at most 25 MiB"@
        },
{
    if len == 0 {
        return Err("Choose an image file".to_owned());
    }
    if len > MAX_SOURCE_BYTES {
        return Err("The selected image must be at most 25 MiB".to_owned());
    }
    Ok(())
}

/// A colour channel with opacity `alpha` (out of 255) laid over white.
pub open spec fn blended(channel: u8, alpha: u8) -> int {
    (channel * alpha + 255 * (255 - alpha)) / 255
}

/// Lays a colour channel with opacity `alpha` over white; the result is a
/// channel value again.
pub fn blend_onto_white(channel: u8, alpha: u8) -> (r: u8)
    ensures
        r == blended(channel, alpha),
{
    let c = channel as u32;
    let a = alpha as u32;
    assert(c * a <= 255 * a) by (nonlinear_arith)
        requires
            c <= 255,
    ;
    let sum = c * a + 255 * (255 - a);
    assert(sum <= 255 * 255);
    (sum / 255) as u8
}

/// An opaque pixel keeps its colour, and a fully transparent one becomes
/// white.
pub proof fn law_blending_keeps_opaque_and_whitens_transparent(channel: u8)
    ensures
        blended(channel, 255) == channel,
        blended(channel, 0) == 255,
{
}

} // verus!
