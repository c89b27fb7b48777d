use friendolls::common::{
    friends_bytes, interaction_bytes, is_skin_hash, message_bytes, profile_bytes, register_bytes,
    InteractionContent, Profile, MAX_TEXT_CHARS,
};

#[test]
fn interaction_signature_bytes_are_length_delimited() {
    assert_ne!(
        interaction_bytes("one", "two", "three\nfour"),
        interaction_bytes("one\ntwo", "three", "four"),
    );
    assert_ne!(
        interaction_bytes("id", "recipient-a", "payload"),
        interaction_bytes("id", "recipient-b", "payload"),
    );
}

#[test]
fn profile_signature_bytes_include_the_skin_hash() {
    let mut profile = Profile {
        id: "id".to_owned(),
        display_name: "Name".to_owned(),
        skin_hash: None,
    };
    let without_skin = profile_bytes(&profile);
    profile.skin_hash = Some("a".repeat(64));
    assert_ne!(without_skin, profile_bytes(&profile));
}

#[test]
fn signed_bytes_have_the_documented_layout() {
    let profile = Profile {
        id: "id".to_owned(),
        display_name: "Name".to_owned(),
        skin_hash: None,
    };
    assert_eq!(
        register_bytes("challenge", &profile, &["a".to_owned(), "b".to_owned()]),
        b"wyd-register-v3\nchallenge\nid\nName\n\na\nb".to_vec()
    );
    assert_eq!(message_bytes("hello"), b"wyd-message-v3\nhello".to_vec());
    assert_eq!(
        profile_bytes(&profile),
        b"wyd-profile-v3\nid\nName\n".to_vec()
    );
    assert_eq!(
        friends_bytes(&["x".to_owned(), "y".to_owned()]),
        b"wyd-friends-v3\nx\ny".to_vec()
    );
    assert_eq!(friends_bytes(&[]), b"wyd-friends-v3\n".to_vec());
    let mut expected = b"wyd-interaction-v3\0".to_vec();
    for field in [&b"i"[..], &b"rr"[..], &b""[..]] {
        expected.extend_from_slice(&(field.len() as u64).to_be_bytes());
        expected.extend_from_slice(field);
    }
    assert_eq!(interaction_bytes("i", "rr", ""), expected);
}

#[test]
fn interaction_content_validation_reports_each_limit() {
    assert!(InteractionContent::Wave.validate().is_ok());
    assert_eq!(
        InteractionContent::Text { text: " \t\n".to_owned() }.validate(),
        Err("Message cannot be empty".to_owned())
    );
    assert_eq!(
        InteractionContent::Text { text: "x".repeat(MAX_TEXT_CHARS + 1) }.validate(),
        Err("Message exceeds 500 characters".to_owned())
    );
    assert!(InteractionContent::Text { text: "é".repeat(MAX_TEXT_CHARS) }.validate().is_ok());
    assert_eq!(
        InteractionContent::Image { media_type: "image/png".to_owned(), data: "AQID".to_owned() }
            .validate(),
        Err("Image must be WebP or JPEG".to_owned())
    );
    assert_eq!(
        InteractionContent::Image { media_type: "image/jpeg".to_owned(), data: String::new() }
            .validate(),
        Err("Compressed image must be at most 150 KiB".to_owned())
    );
    assert!(InteractionContent::Image {
        media_type: "image/webp".to_owned(),
        data: "AQID".to_owned()
    }
    .validate()
    .is_ok());
}

#[test]
fn skin_hashes_are_64_lowercase_hex_digits() {
    assert!(is_skin_hash(&"a".repeat(64)));
    assert!(is_skin_hash(&"0123456789abcdef".repeat(4)));
    assert!(!is_skin_hash(&"A".repeat(64)));
    assert!(!is_skin_hash(&"a".repeat(63)));
    assert!(!is_skin_hash("../skin"));
}
