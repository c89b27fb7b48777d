use base64::engine::general_purpose::URL_SAFE_NO_PAD;
use base64::Engine;
use ed25519_dalek::{Signer, SigningKey};

use friendolls::common::{message_bytes, register_bytes, Profile};
use friendolls::identity::{
    decode_key, public_key, validate_id, verify, AppKeypair, KeyError, KeypairError, StoredKeypair,
};

fn key_bytes(signing_key: &SigningKey) -> [u8; 32] {
    signing_key.verifying_key().to_bytes()
}

#[test]
fn verifies_registration_and_message_signatures() {
    let signing_key = SigningKey::from_bytes(&[7; 32]);
    let profile = Profile {
        id: URL_SAFE_NO_PAD.encode(signing_key.verifying_key().to_bytes()),
        display_name: "Wind".to_owned(),
        skin_hash: None,
    };
    let friends = vec!["friend".to_owned()];
    let registration = register_bytes("challenge", &profile, &friends);
    let signature = URL_SAFE_NO_PAD.encode(signing_key.sign(&registration).to_bytes());

    assert!(verify(&key_bytes(&signing_key), &registration, &signature));
    assert!(!verify(
        &key_bytes(&signing_key),
        &register_bytes("another challenge", &profile, &friends),
        &signature,
    ));
    assert!(!verify(
        &key_bytes(&signing_key),
        &register_bytes("challenge", &profile, &["another-friend".to_owned()]),
        &signature,
    ));

    let message = message_bytes("hello");
    let signature = URL_SAFE_NO_PAD.encode(signing_key.sign(&message).to_bytes());
    assert!(verify(&key_bytes(&signing_key), &message, &signature));
    assert!(!verify(
        &key_bytes(&signing_key),
        &message_bytes("tampered"),
        &signature,
    ));
}

#[test]
fn malformed_signatures_do_not_verify() {
    let signing_key = SigningKey::from_bytes(&[7; 32]);
    let message = message_bytes("hello");
    let short = URL_SAFE_NO_PAD.encode([0u8; 32]);
    assert!(!verify(&key_bytes(&signing_key), &message, &short));
    assert!(!verify(&key_bytes(&signing_key), &message, "not base64!"));
}

#[test]
fn id_must_be_an_ed25519_public_key() {
    let valid = URL_SAFE_NO_PAD.encode(SigningKey::from_bytes(&[7; 32]).verifying_key());
    assert!(validate_id(&valid).is_ok());
    assert!(validate_id("not a public key").is_err());
}

#[test]
fn id_errors_name_what_is_wrong() {
    assert_eq!(
        validate_id("not a public key").unwrap_err(),
        "Identification key is not valid base64url."
    );
    assert_eq!(
        validate_id(&URL_SAFE_NO_PAD.encode([1u8; 16])).unwrap_err(),
        "Identification key must encode a 32-byte public key."
    );
    assert_eq!(public_key("not a public key"), Err(KeyError::NotBase64));
    let signing_key = SigningKey::from_bytes(&[9; 32]);
    let id = URL_SAFE_NO_PAD.encode(signing_key.verifying_key().to_bytes());
    assert_eq!(public_key(&id), Ok(key_bytes(&signing_key)));
}

fn stored(secret: [u8; 32]) -> StoredKeypair {
    let signing_key = SigningKey::from_bytes(&secret);
    StoredKeypair {
        public_key: URL_SAFE_NO_PAD.encode(signing_key.verifying_key().as_bytes()),
        secret_key: URL_SAFE_NO_PAD.encode(secret),
    }
}

#[test]
fn sign_produces_a_signature_verifiable_by_the_entity_id() {
    let keypair = AppKeypair::from_stored(stored([3; 32])).unwrap();
    let payload = b"payload sent to a friend";
    let signature = keypair.sign(payload);
    let key = public_key(keypair.public_key()).unwrap();
    assert!(verify(&key, payload, &signature));
    assert!(!verify(&key, b"a different payload", &signature));
}

#[test]
fn prepare_rejects_a_public_key_that_does_not_match_the_secret() {
    let mut keypair = stored([3; 32]);
    keypair.public_key = stored([4; 32]).public_key;
    assert!(matches!(
        AppKeypair::from_stored(keypair),
        Err(KeypairError::PublicKeyMismatch)
    ));
}

#[test]
fn stored_keys_must_decode_to_32_bytes() {
    assert!(matches!(
        decode_key("!!", "secret key"),
        Err(KeypairError::InvalidEncoding(_))
    ));
    assert!(matches!(
        decode_key(&URL_SAFE_NO_PAD.encode([1u8; 31]), "public key"),
        Err(KeypairError::InvalidKeyLength {
            key: "public key",
            expected: 32,
            actual: 31
        })
    ));
    assert_eq!(
        decode_key(&URL_SAFE_NO_PAD.encode([5u8; 32]), "secret key").unwrap(),
        [5u8; 32]
    );
}
