//! Skins: 64×64 PNG images that users share, known by the SHA-256 digest of
//! their bytes written in lowercase hexadecimal.

use vstd::prelude::*;
use vstd::string::StringExecFns;
use vstd::utf8::encode_utf8;

use sha2::{Digest, Sha256};

use crate::common::{is_skin_hash, skin_hash_spec, MAX_SKIN_B64_SIZE};
use crate::identity::{decode_standard, standard_decoded};
use crate::media::{dimensions, header_dimensions, ImageFormat};

verus! {

broadcast use vstd::string::group_string_axioms;

/// The largest skin, in bytes.
pub const MAX_SKIN_BYTES: usize = 64 * 1024;

/// The width of a skin, in pixels.
pub const SKIN_WIDTH: u32 = 64;

/// The height of a skin, in pixels.
pub const SKIN_HEIGHT: u32 = 64;

/// The SHA-256 digest of some bytes.
pub uninterp spec fn sha256(bytes: Seq<u8>) -> Seq<u8>;

/// Whether `image::load_from_memory_with_format` decodes the bytes as a PNG
/// image.
pub uninterp spec fn decodes_as_png(bytes: Seq<u8>) -> bool;

/// `Sha256::digest` of the `sha2` crate: the 32-byte SHA-256 digest.
#[verifier::external_body]
fn digest(bytes: &[u8]) -> (r: [u8; 32])
    ensures
        r@ == sha256(bytes@),
{
    Sha256::digest(bytes).into()
}

/// `image::load_from_memory_with_format(.., ImageFormat::Png)`: whether the
/// bytes decode as a PNG image.
#[verifier::external_body]
fn png_decodes(bytes: &[u8]) -> (r: bool)
    ensures
        r == decodes_as_png(bytes@),
{
    image::load_from_memory_with_format(bytes, image::ImageFormat::Png).is_ok()
}

/// The lowercase hexadecimal digit of a value below 16.
pub open spec fn hex_digit(d: u8) -> char {
    if d < 10 {
        (d + 48) as char
    } else {
        (d + 87) as char
    }
}

/// Bytes written in lowercase hexadecimal, two digits each.
pub open spec fn hex_text(bytes: Seq<u8>) -> Seq<char>
    decreases bytes.len(),
{
    if bytes.len() == 0 {
        Seq::empty()
    } else {
        hex_text(bytes.drop_last()) + seq![hex_digit(bytes.last() / 16), hex_digit(bytes.last() % 16)]
    }
}

/// Appends the lowercase hexadecimal digit of `d`.
fn push_hex_digit(out: &mut String, d: u8)
    requires
        d < 16,
    ensures
        final(out)@ == old(out)@.push(hex_digit(d)),
{
    proof {
        reveal_strlit("0");
        reveal_strlit("1");
        reveal_strlit("2");
        reveal_strlit("3");
        reveal_strlit("4");
        reveal_strlit("5");
        reveal_strlit("6");
        reveal_strlit("7");
        reveal_strlit("8");
        reveal_strlit("9");
        reveal_strlit("a");
        reveal_strlit("b");
        reveal_strlit("c");
        reveal_strlit("d");
        reveal_strlit("e");
        reveal_strlit("f");
    }
    let digit = if d == 0 {
        "0"
    } else if d == 1 {
        "1"
    } else if d == 2 {
        "2"
    } else if d == 3 {
        "3"
    } else if d == 4 {
        "4"
    } else if d == 5 {
        "5"
    } else if d == 6 {
        "6"
    } else if d == 7 {
        "7"
    } else if d == 8 {
        "8"
    } else if d == 9 {
        "9"
    } else if d == 10 {
        "a"
    } else if d == 11 {
        "b"
    } else if d == 12 {
        "c"
    } else if d == 13 {
        "d"
    } else if d == 14 {
        "e"
    } else {
        "f"
    };
    assert(digit@ =~= seq![hex_digit(d)]);
    out.append(digit);
}

/// The skin hash of some bytes: their SHA-256 digest in lowercase hexadecimal.
pub fn hash(bytes: &[u8]) -> (r: String)
    ensures
        r@ == hex_text(sha256(bytes@)),
        skin_hash_spec(r@),
{
    let d = digest(bytes);
    let mut out = String::new();
    let mut i: usize = 0;
    while i < 32
        invariant
            i <= 32,
            d@.len() == 32,
            out@ == hex_text(d@.take(i as int)),
            out@.len() == 2 * i,
            forall|j: int| 0 <= j < out@.len() ==> ('0' <= #[trigger] out@[j] <= '9') || ('a' <= out@[j] <= 'f'),
        decreases 32 - i,
    {
        let b = d[i];
        push_hex_digit(&mut out, b / 16);
        push_hex_digit(&mut out, b % 16);
        proof {
            assert(d@.take(i + 1).drop_last() =~= d@.take(i as int));
        }
        i = i + 1;
    }
    assert(d@.take(32) =~= d@);
    proof {
        lemma_ascii_hex_is_skin_hash(out@);
    }
    out
}

/// Sixty-four lowercase hexadecimal digits make a skin hash.
proof fn lemma_ascii_hex_is_skin_hash(s: Seq<char>)
    requires
        s.len() == 64,
        forall|j: int| 0 <= j < s.len() ==> ('0' <= #[trigger] s[j] <= '9') || ('a' <= s[j] <= 'f'),
    ensures
        skin_hash_spec(s),
{
    assert(vstd::utf8::is_ascii_chars(s));
    vstd::utf8::is_ascii_chars_encode_utf8(s);
    assert forall|i: int| 0 <= i < encode_utf8(s).len() implies crate::common::is_lower_hex(
        #[trigger] encode_utf8(s)[i],
    ) by {
        assert(encode_utf8(s)[i] == s[i] as u8);
    }
}

/// Checks a skin hash.
pub fn validate_hash(hash: &str) -> (r: Result<(), String>)
    ensures
        r is Ok <==> skin_hash_spec(hash@),
        r matches Err(e) ==> e@ == "Skin hash must be a 64-character SHA-256 value"@,
{
    if is_skin_hash(hash) {
        Ok(())
    } else {
        Err("Skin hash must be a 64-character SHA-256 value".to_owned())
    }
}

/// What `validate` answers for some bytes.
pub open spec fn skin_check(bytes: Seq<u8>) -> Result<Seq<char>, Seq<char>> {
    if bytes.len() == 0 || bytes.len() > MAX_SKIN_BYTES {
        Err("Skin PNG must be at most 64 KiB"@)
    } else {
        match header_dimensions(bytes, ImageFormat::Png) {
            None => Err("Skin must be a valid PNG image"@),
            Some((w, h)) => if w != SKIN_WIDTH || h != SKIN_HEIGHT {
                Err("Skin must be 64×64 pixels"@)
            } else if !decodes_as_png(bytes) {
                Err("Skin must be a valid PNG image"@)
            } else {
                Ok(hex_text(sha256(bytes)))
            },
        }
    }
}

/// Checks that some bytes are a skin: 1 byte to 64 KiB of PNG of 64×64
/// pixels; answers its hash.
pub fn validate(bytes: &[u8]) -> (r: Result<String, String>)
    ensures
        match r {
            Ok(h) => skin_check(bytes@) == Ok::<Seq<char>, Seq<char>>(h@) && skin_hash_spec(h@),
            Err(e) => skin_check(bytes@) == Err::<Seq<char>, Seq<char>>(e@),
        },
{
    if bytes.len() == 0 || bytes.len() > MAX_SKIN_BYTES {
        return Err("Skin PNG must be at most 64 KiB".to_owned());
    }
    let (w, h) = match dimensions(bytes, ImageFormat::Png) {
        Some(d) => d,
        None => return Err("Skin must be a valid PNG image".to_owned()),
    };
    if w != SKIN_WIDTH || h != SKIN_HEIGHT {
        return Err("Skin must be 64×64 pixels".to_owned());
    }
    if !png_decodes(bytes) {
        return Err("Skin must be a valid PNG image".to_owned());
    }
    Ok(hash(bytes))
}

/// The bytes of a stored skin, if they are a skin whose hash is
/// `expected_hash`.
pub fn verified_bytes(bytes: Vec<u8>, expected_hash: &str) -> (r: Option<Vec<u8>>)
    ensures
        r is Some <==> skin_check(bytes@) == Ok::<Seq<char>, Seq<char>>(expected_hash@),
        r matches Some(b) ==> b@ == bytes@,
{
    let valid = match validate(bytes.as_slice()) {
        Ok(actual) => crate::strings::str_eq(actual.as_str(), expected_hash),
        Err(_) => false,
    };
    if valid {
        Some(bytes)
    } else {
        None
    }
}

/// The skin in a friend's answer: the standard Base64 `data`, at most
/// `MAX_SKIN_B64_SIZE` bytes, of a skin whose hash is `expected_hash`.
pub fn decode_response(data: &str, expected_hash: &str) -> (r: Option<Vec<u8>>)
    ensures
        r is Some <==> {
            &&& encode_utf8(data@).len() <= MAX_SKIN_B64_SIZE
            &&& standard_decoded(data@) matches Some(b) && skin_check(b) == Ok::<Seq<char>, Seq<char>>(
                expected_hash@,
            )
        },
        r matches Some(b) ==> standard_decoded(data@) == Some(b@),
{
    if data.as_bytes().len() > MAX_SKIN_B64_SIZE {
        return None;
    }
    let bytes = match decode_standard(data) {
        Ok(bytes) => bytes,
        Err(_) => return None,
    };
    verified_bytes(bytes, expected_hash)
}

/// A skin is accepted only as a PNG of 1 byte to 64 KiB whose header gives
/// exactly `SKIN_WIDTH` by `SKIN_HEIGHT` pixels and which decodes; its hash is
/// then the hexadecimal SHA-256 digest of its bytes.
pub proof fn law_accepted_skins_are_square_pngs(bytes: Seq<u8>)
    ensures
        skin_check(bytes) is Ok ==> {
            &&& 0 < bytes.len() <= MAX_SKIN_BYTES
            &&& header_dimensions(bytes, ImageFormat::Png) == Some((64u32, 64u32))
            &&& decodes_as_png(bytes)
            &&& skin_check(bytes) == Ok::<Seq<char>, Seq<char>>(hex_text(sha256(bytes)))
        },
{
}

/// A PNG within the size limit whose header is not 64 by 64 pixels, in either
/// direction, is refused for its size in pixels.
pub proof fn law_skins_of_another_size_are_refused(bytes: Seq<u8>, w: u32, h: u32)
    requires
        0 < bytes.len() <= MAX_SKIN_BYTES,
        header_dimensions(bytes, ImageFormat::Png) == Some((w, h)),
        w != 64 || h != 64,
    ensures
        skin_check(bytes) == Err::<Seq<char>, Seq<char>>("Skin must be 64×64 pixels"@),
{
}

} // verus!
