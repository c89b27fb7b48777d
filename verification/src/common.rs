//! The wire protocol shared by clients and relay servers: its limits, its
//! messages, the validation of interaction content, and the exact bytes that
//! each signature covers.

use vstd::prelude::*;
use vstd::string::StrSliceExecFns;
use vstd::utf8::encode_utf8;

use crate::strings::str_eq;

verus! {

broadcast use vstd::string::group_string_axioms;

/// The protocol version, part of every signed message.
pub const VERSION: u8 = 3;

/// The largest interaction payload, in bytes.
pub const MAX_INTERACTION_PAYLOAD_BYTES: usize = 160 * 1024;

/// The largest Base64 image in an interaction, in bytes.
pub const MAX_IMAGE_B64_SIZE: usize = 150 * 1024;

/// The largest Base64 skin a client may provide, in bytes.
pub const MAX_SKIN_B64_SIZE: usize = 96 * 1024;

/// The largest width or height of an interaction image, in pixels.
pub const MAX_IMAGE_DIMENSION: u32 = 480;

/// The longest text interaction, in characters.
pub const MAX_TEXT_CHARS: usize = 500;

/// A lowercase hexadecimal digit.
pub open spec fn is_lower_hex(b: u8) -> bool {
    (48 <= b <= 57) || (97 <= b <= 102)
}

/// A skin hash: 64 lowercase hexadecimal digits (a SHA-256 digest).
pub open spec fn skin_hash_spec(s: Seq<char>) -> bool {
    encode_utf8(s).len() == 64 && forall|i: int|
        0 <= i < encode_utf8(s).len() ==> is_lower_hex(#[trigger] encode_utf8(s)[i])
}

/// Whether `hash` is a skin hash: 64 lowercase hexadecimal digits.
pub fn is_skin_hash(hash: &str) -> (r: bool)
    ensures
        r == skin_hash_spec(hash@),
{
    let bytes = hash.as_bytes();
    if bytes.len() != 64 {
        return false;
    }
    let mut i: usize = 0;
    while i < bytes.len()
        invariant
            bytes@ == encode_utf8(hash@),
            i <= bytes@.len(),
            forall|j: int| 0 <= j < i ==> is_lower_hex(#[trigger] bytes@[j]),
        decreases bytes.len() - i,
    {
        let b = bytes[i];
        if !((b >= 48 && b <= 57) || (b >= 97 && b <= 102)) {
            return false;
        }
        i = i + 1;
    }
    true
}

/// A user's public profile.
#[derive(Debug, Clone)]
pub struct Profile {
    pub id: String,
    pub display_name: String,
    pub skin_hash: Option<String>,
}

/// What a client sends to a relay server.
#[derive(Debug, Clone)]
pub enum ClientMessage {
    Register { profile: Profile, friends: Vec<String>, signature: String },
    ProfileUpdated { profile: Profile, signature: String },
    FriendsUpdated { friends: Vec<String>, signature: String },
    SyncFriendProfiles,
    SyncFriendStatuses,
    ResolveProfile { request_id: String, user_id: String },
    RequestSkin { request_id: String, user_id: String, skin_hash: String },
    ProvideSkin {
        request_id: String,
        requester_id: String,
        skin_hash: String,
        data: Option<String>,
    },
    Signed { payload: String, signature: String },
    Interaction {
        interaction_id: String,
        recipient_id: String,
        payload: String,
        signature: String,
    },
}

/// The outcome of relaying an interaction.
#[derive(Clone, Copy, Debug, PartialEq, Eq, Structural)]
pub enum InteractionDeliveryStatus {
    Delivered,
    Unavailable,
    Busy,
    Rejected,
}

/// What one friend sends another.
#[derive(Debug, Clone)]
pub enum InteractionContent {
    Text { text: String },
    Wave,
    Image { media_type: String, data: String },
}

/// What a relay server sends to a client.
#[derive(Debug, Clone)]
#[allow(inconsistent_fields)]
pub enum ServerMessage {
    Challenge { version: u8, challenge: String },
    Registered,
    FriendProfileUpdated { profile: Profile },
    FriendProfiles { profiles: Vec<Profile> },
    ProfileResolved { request_id: String, profile: Option<Profile> },
    SkinRequested { request_id: String, requester_id: String, skin_hash: String },
    SkinResolved { request_id: String, user_id: String, skin_hash: String, data: Option<String> },
    FriendStatusChanged { friend_id: String, online: bool },
    FriendStatuses { friend_ids: Vec<String> },
    FriendLiveData { friend_id: String, payload: String },
    FriendInteraction { interaction_id: String, friend_id: String, payload: String },
    InteractionDelivery { interaction_id: String, status: InteractionDeliveryStatus },
}

/// A character with the Unicode `White_Space` property, which `char::is_whitespace`
/// tests and `str::trim` removes.
pub open spec fn is_white_space(c: char) -> bool {
    ('\u{9}' <= c <= '\u{d}') || c == ' ' || c == '\u{85}' || c == '\u{a0}' || c == '\u{1680}'
        || ('\u{2000}' <= c <= '\u{200a}') || c == '\u{2028}' || c == '\u{2029}' || c
        == '\u{202f}' || c == '\u{205f}' || c == '\u{3000}'
}

/// Whether `c` has the Unicode `White_Space` property.
pub fn is_white_space_char(c: char) -> (r: bool)
    ensures
        r == is_white_space(c),
{
    ('\u{9}' <= c && c <= '\u{d}') || c == ' ' || c == '\u{85}' || c == '\u{a0}' || c
        == '\u{1680}' || ('\u{2000}' <= c && c <= '\u{200a}') || c == '\u{2028}' || c
        == '\u{2029}' || c == '\u{202f}' || c == '\u{205f}' || c == '\u{3000}'
}

/// A string that is empty once trimmed: all of its characters are white space.
pub open spec fn blank(s: Seq<char>) -> bool {
    forall|i: int| 0 <= i < s.len() ==> is_white_space(#[trigger] s[i])
}

/// Whether `s` is empty once trimmed.
pub fn is_blank(s: &str) -> (r: bool)
    ensures
        r == blank(s@),
{
    let n = s.unicode_len();
    let mut i: usize = 0;
    while i < n
        invariant
            n == s@.len(),
            i <= n,
            forall|j: int| 0 <= j < i ==> is_white_space(#[trigger] s@[j]),
        decreases n - i,
    {
        if !is_white_space_char(s.get_char(i)) {
            return false;
        }
        i = i + 1;
    }
    true
}

/// What `InteractionContent::validate` answers for a content.
pub open spec fn content_error(c: InteractionContent) -> Option<Seq<char>> {
    match c {
        InteractionContent::Text { text } => if blank(text@) {
            Some("Message cannot be empty"@)
        } else if text@.len() > MAX_TEXT_CHARS {
            Some("Message exceeds 500 characters"@)
        } else {
            None
        },
        InteractionContent::Wave => None,
        InteractionContent::Image { media_type, data } => if media_type@ != "image/webp"@
            && media_type@ != "image/jpeg"@ {
            Some("Image must be WebP or JPEG"@)
        } else if data@.len() == 0 || encode_utf8(data@).len() > MAX_IMAGE_B64_SIZE {
            Some("Compressed image must be at most 150 KiB"@)
        } else {
            None
        },
    }
}

impl InteractionContent {
    /// Checks the limits that every client and relay server enforces: text is
    /// not blank and has at most `MAX_TEXT_CHARS` characters; an image is WebP
    /// or JPEG with 1 to `MAX_IMAGE_B64_SIZE` bytes of data.
    pub fn validate(&self) -> (r: Result<(), String>)
        ensures
            r is Ok <==> content_error(*self) is None,
            r matches Err(e) ==> content_error(*self) == Some(e@),
    {
        match self {
            InteractionContent::Text { text } => {
                if is_blank(text.as_str()) {
                    return Err("Message cannot be empty".to_owned());
                }
                let n = text.as_str().unicode_len();
                if n > MAX_TEXT_CHARS {
                    return Err("Message exceeds 500 characters".to_owned());
                }
                Ok(())
            },
            InteractionContent::Wave => Ok(()),
            InteractionContent::Image { media_type, data } => {
                if !str_eq(media_type.as_str(), "image/webp") && !str_eq(
                    media_type.as_str(),
                    "image/jpeg",
                ) {
                    return Err("Image must be WebP or JPEG".to_owned());
                }
                if data.as_str().unicode_len() == 0 || data.as_str().as_bytes().len() > MAX_IMAGE_B64_SIZE {
                    return Err("Compressed image must be at most 150 KiB".to_owned());
                }
                Ok(())
            },
        }
    }
}


/// The decimal digits of `n`, in ASCII.
pub open spec fn decimal(n: nat) -> Seq<u8>
    decreases n,
{
    if n < 10 {
        seq![(48 + n) as u8]
    } else {
        decimal(n / 10) + seq![(48 + n % 10) as u8]
    }
}

/// The eight big-endian bytes of `n`.
pub open spec fn be_u64(n: u64) -> Seq<u8> {
    seq![
        (n >> 56u64) as u8,
        (n >> 48u64) as u8,
        (n >> 40u64) as u8,
        (n >> 32u64) as u8,
        (n >> 24u64) as u8,
        (n >> 16u64) as u8,
        (n >> 8u64) as u8,
        n as u8,
    ]
}

/// The lines of `s` joined by line feeds, in UTF-8.
pub open spec fn joined(s: Seq<Seq<char>>) -> Seq<u8>
    decreases s.len(),
{
    if s.len() == 0 {
        Seq::empty()
    } else if s.len() == 1 {
        encode_utf8(s[0])
    } else {
        joined(s.drop_last()) + seq![10u8] + encode_utf8(s.last())
    }
}

/// A signature domain tag: its name followed by the protocol version.
pub open spec fn tag(name: Seq<char>) -> Seq<u8> {
    encode_utf8(name) + decimal(VERSION as nat)
}

/// The skin hash of a profile, or nothing.
pub open spec fn skin_text(p: Profile) -> Seq<char> {
    match p.skin_hash {
        Some(h) => h@,
        None => Seq::empty(),
    }
}

/// The bytes a client signs to register with a relay server.
pub open spec fn register_spec(challenge: Seq<char>, p: Profile, friends: Seq<Seq<char>>) -> Seq<u8> {
    tag("wyd-register-v"@) + seq![10u8] + encode_utf8(challenge) + seq![10u8] + encode_utf8(p.id@)
        + seq![10u8] + encode_utf8(p.display_name@) + seq![10u8] + encode_utf8(skin_text(p)) + seq![
        10u8,
    ] + joined(friends)
}

/// The bytes a client signs to send live data.
pub open spec fn message_spec(payload: Seq<char>) -> Seq<u8> {
    tag("wyd-message-v"@) + seq![10u8] + encode_utf8(payload)
}

/// A field prefixed by its length in eight big-endian bytes.
pub open spec fn delimited(s: Seq<char>) -> Seq<u8> {
    be_u64(encode_utf8(s).len() as u64) + encode_utf8(s)
}

/// The bytes a client signs to send an interaction.
pub open spec fn interaction_spec(interaction_id: Seq<char>, recipient_id: Seq<char>, payload: Seq<
    char,
>) -> Seq<u8> {
    tag("wyd-interaction-v"@) + seq![0u8] + delimited(interaction_id) + delimited(recipient_id)
        + delimited(payload)
}

/// The bytes a client signs to publish its profile.
pub open spec fn profile_spec(p: Profile) -> Seq<u8> {
    tag("wyd-profile-v"@) + seq![10u8] + encode_utf8(p.id@) + seq![10u8] + encode_utf8(
        p.display_name@,
    ) + seq![10u8] + encode_utf8(skin_text(p))
}

/// The bytes a client signs to publish its friend list.
pub open spec fn friends_spec(friends: Seq<Seq<char>>) -> Seq<u8> {
    tag("wyd-friends-v"@) + seq![10u8] + joined(friends)
}

/// Appends the UTF-8 bytes of `s`.
fn push_str(out: &mut Vec<u8>, s: &str)
    ensures
        final(out)@ == old(out)@ + encode_utf8(s@),
{
    let bytes = s.as_bytes();
    let mut i: usize = 0;
    while i < bytes.len()
        invariant
            bytes@ == encode_utf8(s@),
            i <= bytes@.len(),
            out@ == old(out)@ + bytes@.take(i as int),
        decreases bytes.len() - i,
    {
        out.push(bytes[i]);
        assert(bytes@.take(i + 1) =~= bytes@.take(i as int).push(bytes@[i as int]));
        i = i + 1;
    }
    assert(bytes@.take(bytes@.len() as int) =~= bytes@);
}

/// Appends one byte.
fn push_byte(out: &mut Vec<u8>, b: u8)
    ensures
        final(out)@ == old(out)@ + seq![b],
{
    out.push(b);
    assert(out@ =~= old(out)@ + seq![b]);
}

/// Appends the decimal digits of `v`.
fn push_decimal(out: &mut Vec<u8>, v: u8)
    ensures
        final(out)@ == old(out)@ + decimal(v as nat),
{
    if v >= 100 {
        push_byte(out, 48 + v / 100);
        push_byte(out, 48 + (v / 10) % 10);
        push_byte(out, 48 + v % 10);
        assert(decimal(v as nat) =~= seq![(48 + v / 100) as u8] + seq![(48 + (v / 10) % 10) as u8]
            + seq![(48 + v % 10) as u8]) by {
            assert(decimal((v / 100) as nat) == seq![(48 + v / 100) as u8]);
            assert((v as nat) / 10 == (v / 10) as nat);
            assert(((v / 10) as nat) / 10 == (v / 100) as nat);
            assert(decimal((v / 10) as nat) == decimal((v / 100) as nat) + seq![
                (48 + (v / 10) % 10) as u8,
            ]);
        }
    } else if v >= 10 {
        push_byte(out, 48 + v / 10);
        push_byte(out, 48 + v % 10);
        assert(decimal((v / 10) as nat) == seq![(48 + v / 10) as u8]);
        assert(decimal(v as nat) == decimal((v as nat) / 10) + seq![(48 + (v as nat) % 10) as u8]);
        assert((v as nat) / 10 == (v / 10) as nat);
        assert(decimal(v as nat) =~= seq![(48 + v / 10) as u8] + seq![(48 + v % 10) as u8]);
    } else {
        push_byte(out, 48 + v);
    }
    assert(out@ =~= old(out)@ + decimal(v as nat));
}

/// Appends the eight big-endian bytes of `n`.
fn push_be_u64(out: &mut Vec<u8>, n: u64)
    ensures
        final(out)@ == old(out)@ + be_u64(n),
{
    push_byte(out, (n >> 56u64) as u8);
    push_byte(out, (n >> 48u64) as u8);
    push_byte(out, (n >> 40u64) as u8);
    push_byte(out, (n >> 32u64) as u8);
    push_byte(out, (n >> 24u64) as u8);
    push_byte(out, (n >> 16u64) as u8);
    push_byte(out, (n >> 8u64) as u8);
    push_byte(out, n as u8);
    assert(out@ =~= old(out)@ + be_u64(n));
}

/// Appends the lines of `lines` joined by line feeds.
fn push_joined(out: &mut Vec<u8>, lines: &[String])
    ensures
        final(out)@ == old(out)@ + joined(crate::strings::views(lines@)),
{
    let ghost v = crate::strings::views(lines@);
    let mut i: usize = 0;
    while i < lines.len()
        invariant
            v == crate::strings::views(lines@),
            i <= lines@.len(),
            out@ == old(out)@ + joined(v.take(i as int)),
        decreases lines.len() - i,
    {
        let ghost before = out@;
        if i > 0 {
            push_byte(out, 10);
        }
        push_str(out, lines[i].as_str());
        proof {
            let t = v.take(i + 1);
            assert(t.drop_last() =~= v.take(i as int));
            assert(t.last() == lines@[i as int]@);
            if i == 0 {
                assert(joined(v.take(0)) =~= Seq::<u8>::empty());
                assert(out@ =~= old(out)@ + joined(t));
            } else {
                assert(out@ =~= old(out)@ + joined(t));
            }
        }
        i = i + 1;
    }
    assert(v.take(lines@.len() as int) =~= v);
}

/// The bytes a client signs to register with a relay server: the challenge the
/// server sent, the profile and the friend list, one per line.
pub fn register_bytes(challenge: &str, profile: &Profile, friends: &[String]) -> (r: Vec<u8>)
    ensures
        r@ == register_spec(challenge@, *profile, crate::strings::views(friends@)),
{
    let mut out: Vec<u8> = Vec::new();
    push_str(&mut out, "wyd-register-v");
    push_decimal(&mut out, VERSION);
    push_byte(&mut out, 10);
    push_str(&mut out, challenge);
    push_byte(&mut out, 10);
    push_str(&mut out, profile.id.as_str());
    push_byte(&mut out, 10);
    push_str(&mut out, profile.display_name.as_str());
    push_byte(&mut out, 10);
    match &profile.skin_hash {
        Some(h) => push_str(&mut out, h.as_str()),
        None => push_str(&mut out, ""),
    }
    push_byte(&mut out, 10);
    push_joined(&mut out, friends);
    proof {
        reveal_strlit("");
        assert(out@ =~= register_spec(challenge@, *profile, crate::strings::views(friends@)));
    }
    out
}

/// The bytes a client signs to send live data.
pub fn message_bytes(payload: &str) -> (r: Vec<u8>)
    ensures
        r@ == message_spec(payload@),
{
    let mut out: Vec<u8> = Vec::new();
    push_str(&mut out, "wyd-message-v");
    push_decimal(&mut out, VERSION);
    push_byte(&mut out, 10);
    push_str(&mut out, payload);
    assert(out@ =~= message_spec(payload@));
    out
}

/// Appends `s` prefixed by its length in eight big-endian bytes.
fn push_delimited(out: &mut Vec<u8>, s: &str)
    ensures
        final(out)@ == old(out)@ + delimited(s@),
{
    let n = s.as_bytes().len();
    push_be_u64(out, n as u64);
    push_str(out, s);
    assert(out@ =~= old(out)@ + delimited(s@));
}

/// The bytes a client signs to send an interaction: every field is prefixed by
/// its length, so that no two different interactions share their bytes.
pub fn interaction_bytes(interaction_id: &str, recipient_id: &str, payload: &str) -> (r: Vec<u8>)
    ensures
        r@ == interaction_spec(interaction_id@, recipient_id@, payload@),
{
    let mut out: Vec<u8> = Vec::new();
    push_str(&mut out, "wyd-interaction-v");
    push_decimal(&mut out, VERSION);
    push_byte(&mut out, 0);
    push_delimited(&mut out, interaction_id);
    push_delimited(&mut out, recipient_id);
    push_delimited(&mut out, payload);
    assert(out@ =~= interaction_spec(interaction_id@, recipient_id@, payload@));
    out
}

/// The bytes a client signs to publish its profile.
pub fn profile_bytes(profile: &Profile) -> (r: Vec<u8>)
    ensures
        r@ == profile_spec(*profile),
{
    let mut out: Vec<u8> = Vec::new();
    push_str(&mut out, "wyd-profile-v");
    push_decimal(&mut out, VERSION);
    push_byte(&mut out, 10);
    push_str(&mut out, profile.id.as_str());
    push_byte(&mut out, 10);
    push_str(&mut out, profile.display_name.as_str());
    push_byte(&mut out, 10);
    match &profile.skin_hash {
        Some(h) => push_str(&mut out, h.as_str()),
        None => push_str(&mut out, ""),
    }
    proof {
        reveal_strlit("");
        assert(out@ =~= profile_spec(*profile));
    }
    out
}

/// The bytes a client signs to publish its friend list.
pub fn friends_bytes(friends: &[String]) -> (r: Vec<u8>)
    ensures
        r@ == friends_spec(crate::strings::views(friends@)),
{
    let mut out: Vec<u8> = Vec::new();
    push_str(&mut out, "wyd-friends-v");
    push_decimal(&mut out, VERSION);
    push_byte(&mut out, 10);
    push_joined(&mut out, friends);
    assert(out@ =~= friends_spec(crate::strings::views(friends@)));
    out
}


/// Splitting two equal concatenations at the same length splits them equally.
proof fn lemma_split_equal(x1: Seq<u8>, r1: Seq<u8>, x2: Seq<u8>, r2: Seq<u8>)
    requires
        x1 + r1 == x2 + r2,
        x1.len() == x2.len(),
    ensures
        x1 == x2,
        r1 == r2,
{
    assert(x1 =~= (x1 + r1).subrange(0, x1.len() as int));
    assert(x2 =~= (x2 + r2).subrange(0, x2.len() as int));
    assert(r1 =~= (x1 + r1).subrange(x1.len() as int, (x1 + r1).len() as int));
    assert(r2 =~= (x2 + r2).subrange(x2.len() as int, (x2 + r2).len() as int));
}

/// Different numbers have different big-endian bytes.
proof fn lemma_be_u64_injective(a: u64, b: u64)
    requires
        be_u64(a) == be_u64(b),
    ensures
        a == b,
{
    assert(be_u64(a)[0] == be_u64(b)[0]);
    assert(be_u64(a)[1] == be_u64(b)[1]);
    assert(be_u64(a)[2] == be_u64(b)[2]);
    assert(be_u64(a)[3] == be_u64(b)[3]);
    assert(be_u64(a)[4] == be_u64(b)[4]);
    assert(be_u64(a)[5] == be_u64(b)[5]);
    assert(be_u64(a)[6] == be_u64(b)[6]);
    assert(be_u64(a)[7] == be_u64(b)[7]);
    assert(((a >> 56u64) as u8 == (b >> 56u64) as u8 && (a >> 48u64) as u8 == (b >> 48u64) as u8
        && (a >> 40u64) as u8 == (b >> 40u64) as u8 && (a >> 32u64) as u8 == (b >> 32u64) as u8
        && (a >> 24u64) as u8 == (b >> 24u64) as u8 && (a >> 16u64) as u8 == (b >> 16u64) as u8
        && (a >> 8u64) as u8 == (b >> 8u64) as u8 && a as u8 == b as u8) ==> a == b)
        by (bit_vector);
}

/// A length-delimited field followed by anything determines the field.
proof fn lemma_delimited_prefix(x: Seq<char>, r1: Seq<u8>, y: Seq<char>, r2: Seq<u8>)
    requires
        delimited(x) + r1 == delimited(y) + r2,
        encode_utf8(x).len() <= u64::MAX,
        encode_utf8(y).len() <= u64::MAX,
    ensures
        x == y,
        r1 == r2,
{
    let lx = encode_utf8(x).len() as u64;
    let ly = encode_utf8(y).len() as u64;
    assert(delimited(x) + r1 == be_u64(lx) + (encode_utf8(x) + r1));
    assert(delimited(y) + r2 == be_u64(ly) + (encode_utf8(y) + r2));
    lemma_split_equal(be_u64(lx), encode_utf8(x) + r1, be_u64(ly), encode_utf8(y) + r2);
    lemma_be_u64_injective(lx, ly);
    lemma_split_equal(encode_utf8(x), r1, encode_utf8(y), r2);
    crate::strings::lemma_utf8_injective(x, y);
}

/// Interaction bytes are length-delimited: two interactions that differ in
/// their id, recipient or payload never share their signed bytes.
pub proof fn law_interaction_bytes_are_length_delimited(
    a1: Seq<char>,
    b1: Seq<char>,
    c1: Seq<char>,
    a2: Seq<char>,
    b2: Seq<char>,
    c2: Seq<char>,
)
    requires
        encode_utf8(a1).len() <= u64::MAX,
        encode_utf8(b1).len() <= u64::MAX,
        encode_utf8(c1).len() <= u64::MAX,
        encode_utf8(a2).len() <= u64::MAX,
        encode_utf8(b2).len() <= u64::MAX,
        encode_utf8(c2).len() <= u64::MAX,
        interaction_spec(a1, b1, c1) == interaction_spec(a2, b2, c2),
    ensures
        a1 == a2,
        b1 == b2,
        c1 == c2,
{
    let t = tag("wyd-interaction-v"@) + seq![0u8];
    assert(interaction_spec(a1, b1, c1) =~= t + (delimited(a1) + (delimited(b1) + (delimited(c1)
        + Seq::empty()))));
    assert(interaction_spec(a2, b2, c2) =~= t + (delimited(a2) + (delimited(b2) + (delimited(c2)
        + Seq::empty()))));
    lemma_split_equal(
        t,
        delimited(a1) + (delimited(b1) + (delimited(c1) + Seq::empty())),
        t,
        delimited(a2) + (delimited(b2) + (delimited(c2) + Seq::empty())),
    );
    lemma_delimited_prefix(
        a1,
        delimited(b1) + (delimited(c1) + Seq::empty()),
        a2,
        delimited(b2) + (delimited(c2) + Seq::empty()),
    );
    lemma_delimited_prefix(b1, delimited(c1) + Seq::empty(), b2, delimited(c2) + Seq::empty());
    lemma_delimited_prefix(c1, Seq::empty(), c2, Seq::empty());
}

/// The profile bytes cover the skin hash: two profiles with the same id and
/// name but different skin hashes (an absent one counting as empty) have
/// different signed bytes.
pub proof fn law_profile_bytes_cover_the_skin_hash(p1: Profile, p2: Profile)
    requires
        p1.id@ == p2.id@,
        p1.display_name@ == p2.display_name@,
        profile_spec(p1) == profile_spec(p2),
    ensures
        skin_text(p1) == skin_text(p2),
{
    let head = tag("wyd-profile-v"@) + seq![10u8] + encode_utf8(p1.id@) + seq![10u8]
        + encode_utf8(p1.display_name@) + seq![10u8];
    assert(profile_spec(p1) =~= head + encode_utf8(skin_text(p1)));
    assert(profile_spec(p2) =~= head + encode_utf8(skin_text(p2)));
    lemma_split_equal(head, encode_utf8(skin_text(p1)), head, encode_utf8(skin_text(p2)));
    crate::strings::lemma_utf8_injective(skin_text(p1), skin_text(p2));
}

/// A registration is bound to the server's challenge: the same profile and
/// friends signed for two different challenges give different bytes.
pub proof fn law_registration_is_bound_to_the_challenge(
    c1: Seq<char>,
    c2: Seq<char>,
    p: Profile,
    friends: Seq<Seq<char>>,
)
    requires
        register_spec(c1, p, friends) == register_spec(c2, p, friends),
    ensures
        c1 == c2,
{
    let head = tag("wyd-register-v"@) + seq![10u8];
    let tail = seq![10u8] + encode_utf8(p.id@) + seq![10u8] + encode_utf8(p.display_name@)
        + seq![10u8] + encode_utf8(skin_text(p)) + seq![10u8] + joined(friends);
    assert(register_spec(c1, p, friends) =~= head + (encode_utf8(c1) + tail));
    assert(register_spec(c2, p, friends) =~= head + (encode_utf8(c2) + tail));
    lemma_split_equal(head, encode_utf8(c1) + tail, head, encode_utf8(c2) + tail);
    assert(encode_utf8(c1).len() == encode_utf8(c2).len());
    lemma_split_equal(encode_utf8(c1), tail, encode_utf8(c2), tail);
    crate::strings::lemma_utf8_injective(c1, c2);
}

/// Live-data signatures cover the whole payload: different payloads have
/// different signed bytes.
pub proof fn law_message_bytes_cover_the_payload(a: Seq<char>, b: Seq<char>)
    requires
        message_spec(a) == message_spec(b),
    ensures
        a == b,
{
    let head = tag("wyd-message-v"@) + seq![10u8];
    assert(message_spec(a) =~= head + encode_utf8(a));
    assert(message_spec(b) =~= head + encode_utf8(b));
    lemma_split_equal(head, encode_utf8(a), head, encode_utf8(b));
    crate::strings::lemma_utf8_injective(a, b);
}

} // verus!
