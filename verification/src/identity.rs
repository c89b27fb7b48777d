//! Identities: a user is known by an Ed25519 public key written in unpadded
//! URL-safe Base64. This module decodes and checks such keys, verifies
//! signatures against them, and holds the local signing keypair.

use vstd::prelude::*;

use base64::engine::general_purpose::{STANDARD, URL_SAFE_NO_PAD};
use base64::Engine;
use ed25519_dalek::{Signature, Signer, SigningKey, Verifier, VerifyingKey};

verus! {

/// The error that the `base64` crate reports for a malformed input.
#[verifier::external_type_specification]
#[verifier::external_body]
pub struct ExDecodeError(base64::DecodeError);

/// What `URL_SAFE_NO_PAD.decode` gives for a text: the decoded bytes, or
/// `None` where it reports an error.
pub uninterp spec fn url_safe_decoded(text: Seq<char>) -> Option<Seq<u8>>;

/// What `STANDARD.decode` (padded standard Base64) gives for a text.
pub uninterp spec fn standard_decoded(text: Seq<char>) -> Option<Seq<u8>>;

/// What `URL_SAFE_NO_PAD.encode` gives for some bytes.
pub uninterp spec fn url_safe_encoded(bytes: Seq<u8>) -> Seq<char>;

/// Whether 32 bytes are the compressed form of a curve point, the test that
/// `VerifyingKey::from_bytes` makes.
pub uninterp spec fn is_curve_point(key: Seq<u8>) -> bool;

/// Whether a 64-byte Ed25519 signature over `message` verifies under `key`.
pub uninterp spec fn signature_verifies(key: Seq<u8>, message: Seq<u8>, signature: Seq<u8>) -> bool;

/// The public key of a 32-byte secret key.
pub uninterp spec fn public_key_of(secret: Seq<u8>) -> Seq<u8>;

/// The Ed25519 signature of `message` under a 32-byte secret key.
pub uninterp spec fn signature_of(secret: Seq<u8>, message: Seq<u8>) -> Seq<u8>;

/// `URL_SAFE_NO_PAD.decode` from the `base64` crate: decodes unpadded
/// URL-safe Base64, or reports why it cannot.
#[verifier::external_body]
pub(crate) fn decode_url_safe(text: &str) -> (r: Result<Vec<u8>, base64::DecodeError>)
    ensures
        r is Ok == url_safe_decoded(text@) is Some,
        r matches Ok(v) ==> url_safe_decoded(text@) == Some(v@),
{
    URL_SAFE_NO_PAD.decode(text)
}

/// `STANDARD.decode` from the `base64` crate: decodes padded standard Base64,
/// or reports why it cannot.
#[verifier::external_body]
pub(crate) fn decode_standard(text: &str) -> (r: Result<Vec<u8>, base64::DecodeError>)
    ensures
        r is Ok == standard_decoded(text@) is Some,
        r matches Ok(v) ==> standard_decoded(text@) == Some(v@),
{
    STANDARD.decode(text)
}

/// `URL_SAFE_NO_PAD.encode` from the `base64` crate. Decoding what it
/// produces gives back the bytes, as encoding and decoding with one engine do.
#[verifier::external_body]
pub(crate) fn encode_url_safe(bytes: &[u8]) -> (r: String)
    ensures
        r@ == url_safe_encoded(bytes@),
        url_safe_decoded(r@) == Some(bytes@),
{
    URL_SAFE_NO_PAD.encode(bytes)
}

/// `VerifyingKey::from_bytes` of `ed25519-dalek`: whether the bytes
/// decompress to a curve point.
#[verifier::external_body]
fn curve_point(key: &[u8; 32]) -> (r: bool)
    ensures
        r == is_curve_point(key@),
{
    VerifyingKey::from_bytes(key).is_ok()
}

/// `VerifyingKey::verify` of `ed25519-dalek`, after `VerifyingKey::from_bytes`
/// and `Signature::from_slice` turn the bytes into its arguments: a key that
/// is no curve point, or a signature of another length than 64 bytes, does
/// not verify.
#[verifier::external_body]
fn verify_signature(key: &[u8; 32], message: &[u8], signature: &[u8]) -> (r: bool)
    ensures
        r == (is_curve_point(key@) && signature@.len() == 64 && signature_verifies(
            key@,
            message@,
            signature@,
        )),
{
    let Ok(key) = VerifyingKey::from_bytes(key) else {
        return false;
    };
    let Ok(signature) = Signature::from_slice(signature) else {
        return false;
    };
    key.verify(message, &signature).is_ok()
}

/// `SigningKey::from_bytes(..).verifying_key().to_bytes()` of `ed25519-dalek`:
/// the public key of a secret key, which is a curve point.
#[verifier::external_body]
fn derive_public_key(secret: &[u8; 32]) -> (r: [u8; 32])
    ensures
        r@ == public_key_of(secret@),
        is_curve_point(r@),
{
    SigningKey::from_bytes(secret).verifying_key().to_bytes()
}

/// `SigningKey::sign` of `ed25519-dalek`: the 64-byte signature of a message,
/// which verifies under the public key of the same secret key.
#[verifier::external_body]
fn sign_message(secret: &[u8; 32], message: &[u8]) -> (r: [u8; 64])
    ensures
        r@ == signature_of(secret@, message@),
        signature_verifies(public_key_of(secret@), message@, r@),
{
    SigningKey::from_bytes(secret).sign(message).to_bytes()
}

/// The first 32 bytes of `v` as an array.
fn first_32(v: &Vec<u8>) -> (r: [u8; 32])
    requires
        v@.len() == 32,
    ensures
        r@ == v@,
{
    let mut a = [0u8; 32];
    let mut i: usize = 0;
    while i < 32
        invariant
            v@.len() == 32,
            i <= 32,
            forall|j: int| 0 <= j < i ==> a@[j] == v@[j],
        decreases 32 - i,
    {
        a[i] = v[i];
        i = i + 1;
    }
    assert(a@ =~= v@);
    a
}

/// Why a text is no public key.
#[derive(Debug, Clone, Copy, PartialEq, Eq, Structural)]
pub enum KeyError {
    /// It is not unpadded URL-safe Base64.
    NotBase64,
    /// It decodes to another length than 32 bytes.
    WrongLength,
    /// Its 32 bytes are no curve point.
    NotACurvePoint,
}

/// The outcome of reading a public key from its text.
pub open spec fn key_from_text(text: Seq<char>) -> Result<Seq<u8>, KeyError> {
    match url_safe_decoded(text) {
        None => Err(KeyError::NotBase64),
        Some(bytes) => if bytes.len() != 32 {
            Err(KeyError::WrongLength)
        } else if !is_curve_point(bytes) {
            Err(KeyError::NotACurvePoint)
        } else {
            Ok(bytes)
        },
    }
}

/// Reads the Ed25519 public key that a user id stands for.
pub fn public_key(id: &str) -> (r: Result<[u8; 32], KeyError>)
    ensures
        match r {
            Ok(k) => key_from_text(id@) == Ok::<Seq<u8>, KeyError>(k@),
            Err(e) => key_from_text(id@) == Err::<Seq<u8>, KeyError>(e),
        },
{
    let bytes = match decode_url_safe(id) {
        Ok(bytes) => bytes,
        Err(_) => return Err(KeyError::NotBase64),
    };
    if bytes.len() != 32 {
        return Err(KeyError::WrongLength);
    }
    let key = first_32(&bytes);
    if !curve_point(&key) {
        return Err(KeyError::NotACurvePoint);
    }
    Ok(key)
}

/// Checks that a user id is an Ed25519 public key, or says what is wrong.
pub fn validate_id(id: &str) -> (r: Result<(), String>)
    ensures
        r is Ok <==> key_from_text(id@) is Ok,
        r matches Err(e) ==> e@ == match key_from_text(id@) {
            Err(KeyError::NotBase64) => "Identification key is not valid base64url."@,
            Err(KeyError::WrongLength) => "Identification key must encode a 32-byte public key."@,
            _ => "Identification key is not a valid Ed25519 public key."@,
        },
{
    match public_key(id) {
        Ok(_) => Ok(()),
        Err(KeyError::NotBase64) => Err("Identification key is not valid base64url.".to_owned()),
        Err(KeyError::WrongLength) => Err(
            "Identification key must encode a 32-byte public key.".to_owned(),
        ),
        Err(KeyError::NotACurvePoint) => Err(
            "Identification key is not a valid Ed25519 public key.".to_owned(),
        ),
    }
}

/// Whether `signature`, in unpadded URL-safe Base64, is a valid signature of
/// `bytes` under `key`.
pub open spec fn signed_by(key: Seq<u8>, bytes: Seq<u8>, signature: Seq<char>) -> bool {
    match url_safe_decoded(signature) {
        None => false,
        Some(s) => is_curve_point(key) && s.len() == 64 && signature_verifies(key, bytes, s),
    }
}

/// Whether `signature` is a valid signature of `bytes` under `key`.
pub fn verify(key: &[u8; 32], bytes: &[u8], signature: &str) -> (r: bool)
    ensures
        r == signed_by(key@, bytes@, signature@),
{
    match decode_url_safe(signature) {
        Ok(s) => verify_signature(key, bytes, s.as_slice()),
        Err(_) => false,
    }
}

/// Why the stored keypair cannot be used.
#[derive(Debug)]
pub enum KeypairError {
    /// A stored key is not unpadded URL-safe Base64.
    InvalidEncoding(base64::DecodeError),
    /// A stored key decodes to another length than expected.
    InvalidKeyLength { key: &'static str, expected: usize, actual: usize },
    /// The stored public key is not that of the stored secret key.
    PublicKeyMismatch,
}

/// Decodes a stored 32-byte key; `key` names it in the error.
pub fn decode_key(encoded: &str, key: &'static str) -> (r: Result<[u8; 32], KeypairError>)
    ensures
        r is Ok <==> (url_safe_decoded(encoded@) matches Some(b) && b.len() == 32),
        r matches Ok(k) ==> url_safe_decoded(encoded@) == Some(k@),
        r matches Err(KeypairError::InvalidEncoding(_)) <==> url_safe_decoded(encoded@) is None,
        r matches Err(KeypairError::InvalidKeyLength { key: name, expected, actual }) ==> {
            &&& name == key
            &&& expected == 32
            &&& actual != 32
            &&& url_safe_decoded(encoded@) matches Some(b) && b.len() == actual
        },
        !(r matches Err(KeypairError::PublicKeyMismatch)),
{
    let decoded = match decode_url_safe(encoded) {
        Ok(decoded) => decoded,
        Err(error) => return Err(KeypairError::InvalidEncoding(error)),
    };
    let actual = decoded.len();
    if actual != 32 {
        return Err(KeypairError::InvalidKeyLength { key, expected: 32, actual });
    }
    Ok(first_32(&decoded))
}

/// The keypair row of the local database, both keys in unpadded URL-safe Base64.
pub struct StoredKeypair {
    pub public_key: String,
    pub secret_key: String,
}

impl StoredKeypair {
    /// The secret key, once both keys decode to 32 bytes and the public key
    /// is that of the secret key.
    pub fn signing_key(&self) -> (r: Result<[u8; 32], KeypairError>)
        ensures
            r matches Ok(secret) ==> (url_safe_decoded(self.secret_key@) == Some(secret@)
                && url_safe_decoded(self.public_key@) == Some(public_key_of(secret@))),
            r is Ok <==> (url_safe_decoded(self.secret_key@) matches Some(s) && s.len() == 32
                && url_safe_decoded(self.public_key@) == Some(public_key_of(s))),
    {
        let secret = match decode_key(self.secret_key.as_str(), "secret key") {
            Ok(secret) => secret,
            Err(error) => return Err(error),
        };
        let derived = derive_public_key(&secret);
        let public = match decode_key(self.public_key.as_str(), "public key") {
            Ok(public) => public,
            Err(error) => return Err(error),
        };
        let mut i: usize = 0;
        while i < 32
            invariant
                i <= 32,
                derived@ == public_key_of(secret@),
                url_safe_decoded(self.secret_key@) == Some(secret@),
                url_safe_decoded(self.public_key@) == Some(public@),
                forall|j: int| 0 <= j < i ==> derived@[j] == public@[j],
            decreases 32 - i,
        {
            if derived[i] != public[i] {
                assert(derived@ != public@);
                return Err(KeypairError::PublicKeyMismatch);
            }
            i = i + 1;
        }
        assert(derived@ =~= public@);
        Ok(secret)
    }
}

/// The local identity: a secret key and the user id, its public key.
pub struct AppKeypair {
    secret: [u8; 32],
    public_key: String,
}

impl AppKeypair {
    /// The secret key.
    pub closed spec fn secret(&self) -> Seq<u8> {
        self.secret@
    }

    /// The user id.
    pub closed spec fn id(&self) -> Seq<char> {
        self.public_key@
    }

    /// The user id is the encoding of the public key of the secret key.
    #[verifier::type_invariant]
    closed spec fn consistent(self) -> bool {
        key_from_text(self.public_key@) == Ok::<Seq<u8>, KeyError>(public_key_of(self.secret@))
    }

    /// The identity of a stored keypair, once it checks out.
    pub fn from_stored(keypair: StoredKeypair) -> (r: Result<AppKeypair, KeypairError>)
        ensures
            r matches Ok(k) ==> k.id() == keypair.public_key@ && url_safe_decoded(
                keypair.secret_key@,
            ) == Some(k.secret()),
            r is Ok <==> (url_safe_decoded(keypair.secret_key@) matches Some(s) && s.len() == 32
                && url_safe_decoded(keypair.public_key@) == Some(public_key_of(s))),
    {
        let secret = keypair.signing_key()?;
        let _ = derive_public_key(&secret);
        Ok(AppKeypair { secret, public_key: keypair.public_key })
    }

    /// The user id.
    pub fn public_key(&self) -> (r: &str)
        ensures
            r@ == self.id(),
    {
        self.public_key.as_str()
    }

    /// Signs `payload`; the signature, in unpadded URL-safe Base64, verifies
    /// under the key that the user id stands for.
    pub fn sign(&self, payload: &[u8]) -> (r: String)
        ensures
            r@ == url_safe_encoded(signature_of(self.secret(), payload@)),
            key_from_text(self.id()) matches Ok(key) && signed_by(key, payload@, r@),
    {
        proof {
            use_type_invariant(self);
        }
        let signature = sign_message(&self.secret, payload);
        let _ = derive_public_key(&self.secret);
        encode_url_safe(&signature)
    }
}

} // verus!
