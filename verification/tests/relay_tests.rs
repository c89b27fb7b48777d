use base64::engine::general_purpose::{STANDARD, URL_SAFE_NO_PAD};
use base64::Engine;
use ed25519_dalek::{Signer, SigningKey};
use image::{Rgb, RgbImage};

use friendolls::common::{
    friends_bytes, interaction_bytes, message_bytes, profile_bytes, register_bytes,
    InteractionContent, InteractionDeliveryStatus, Profile, MAX_IMAGE_DIMENSION,
    MAX_INTERACTION_PAYLOAD_BYTES, MAX_TEXT_CHARS,
};
use friendolls::relay::{
    check_registration, content_is_deliverable, delivery_status, Client, InteractionRelay,
    QueueOutcome, Registry, SkinRequest,
};

fn signing_key(seed: u8) -> SigningKey {
    SigningKey::from_bytes(&[seed; 32])
}

fn id_of(key: &SigningKey) -> String {
    URL_SAFE_NO_PAD.encode(key.verifying_key().to_bytes())
}

fn sign(key: &SigningKey, bytes: &[u8]) -> String {
    URL_SAFE_NO_PAD.encode(key.sign(bytes).to_bytes())
}

fn client(key: &SigningKey, id: &str, connection_id: u128, friends: &[&str], skin: Option<&str>) -> Client {
    Client {
        connection_id,
        key: key.verifying_key().to_bytes(),
        profile: Profile {
            id: id.to_owned(),
            display_name: id.to_owned(),
            skin_hash: skin.map(str::to_owned),
        },
        friends: friends.iter().map(|f| f.to_string()).collect(),
    }
}

#[test]
fn registration_is_checked_against_the_challenge() {
    let key = signing_key(7);
    let profile = Profile {
        id: id_of(&key),
        display_name: "Wind".to_owned(),
        skin_hash: None,
    };
    let friends = vec!["friend".to_owned()];
    let signature = sign(&key, &register_bytes("challenge", &profile, &friends));
    assert_eq!(
        check_registration("challenge", &profile, &friends, &signature),
        Some(key.verifying_key().to_bytes())
    );
    assert_eq!(check_registration("other", &profile, &friends, &signature), None);
    let mut bad_skin = profile.clone();
    bad_skin.skin_hash = Some("../skin".to_owned());
    let signature = sign(&key, &register_bytes("challenge", &bad_skin, &friends));
    assert_eq!(check_registration("challenge", &bad_skin, &friends, &signature), None);
}

#[test]
fn authenticated_friend_update_changes_only_ids() {
    let key = signing_key(7);
    let public_key = id_of(&key);
    let mut registry = Registry::new();
    registry.register(client(&key, &public_key, 1, &[], None));
    let friends = vec!["friend-a".to_owned(), "friend-b".to_owned()];
    let signature = sign(&key, &friends_bytes(&friends));

    assert!(registry
        .update_friends(&public_key, 1, friends.clone(), &signature)
        .is_some());
    assert_eq!(registry.friends_of(&public_key).unwrap(), friends);
    assert!(registry
        .update_friends(&public_key, 2, friends.clone(), &signature)
        .is_none());
}

#[test]
fn presence_sync_and_disconnect_broadcast_require_mutual_friendship() {
    let key = signing_key(7);
    let mut registry = Registry::new();
    registry.register(client(&key, "source", 1, &["mutual"], None));
    registry.register(client(&key, "mutual", 2, &["source"], None));
    registry.register(client(&key, "one-way", 3, &["source"], None));

    assert_eq!(registry.friend_statuses("source", 1).unwrap(), ["mutual"]);
    assert!(registry.friend_statuses("source", 9).is_none());
    assert_eq!(registry.status_recipients("source"), ["mutual"]);

    let no_friends: Vec<String> = Vec::new();
    let signature = sign(&key, &friends_bytes(&no_friends));
    let update = registry
        .update_friends("source", 1, no_friends, &signature)
        .unwrap();
    assert!(update.friend_ids.is_empty());
    assert!(update.changes.online.is_empty());
    assert_eq!(update.changes.offline, ["mutual"]);

    let mutual_friends = vec!["mutual".to_owned()];
    let signature = sign(&key, &friends_bytes(&mutual_friends));
    let update = registry
        .update_friends("source", 1, mutual_friends, &signature)
        .unwrap();
    assert_eq!(update.friend_ids, ["mutual"]);
    assert_eq!(update.changes.online, ["mutual"]);
    assert!(update.changes.offline.is_empty());

    assert!(registry.disconnect("source", 9).is_none());
    assert!(registry.contains("source"));
    assert_eq!(registry.disconnect("source", 1).unwrap(), ["mutual"]);
    assert!(!registry.contains("source"));
}

#[test]
fn reconnecting_reports_only_changed_friendships() {
    let key = signing_key(7);
    let mut registry = Registry::new();
    registry.register(client(&key, "a", 1, &["source"], None));
    registry.register(client(&key, "b", 2, &["source"], None));
    let fresh = registry.connected("a", None);
    assert!(fresh.online.is_empty());
    let previous = registry.register(client(&key, "source", 3, &["a"], None));
    assert!(previous.is_none());
    let first = registry.connected("source", previous);
    assert_eq!(first.online, ["a"]);
    let previous = registry.register(client(&key, "source", 4, &["b"], None));
    assert_eq!(previous, Some(vec!["a".to_owned()]));
    let changes = registry.connected("source", previous);
    assert_eq!(changes.online, ["b"]);
    assert_eq!(changes.offline, ["a"]);
    assert!(!registry.is_current("source", 3));
    assert!(registry.is_current("source", 4));
}

#[test]
fn live_data_relay_requires_valid_session_signature_and_mutual_friendship() {
    let key = signing_key(7);
    let public_key = id_of(&key);
    let mut registry = Registry::new();
    registry.register(client(&key, &public_key, 1, &["mutual", "sender-only"], None));
    registry.register(client(&key, "mutual", 2, &[&public_key], None));
    registry.register(client(&key, "sender-only", 3, &[], None));
    registry.register(client(&key, "recipient-only", 4, &[&public_key], None));

    let payload = r#"{"type":"cursor","positions":{}}"#;
    let signature = sign(&key, &message_bytes(payload));
    assert_eq!(
        registry
            .relay_live_data(&public_key, 1, payload, &signature)
            .unwrap(),
        ["mutual"]
    );
    assert!(registry
        .relay_live_data(&public_key, 9, payload, &signature)
        .is_none());
    assert!(registry
        .relay_live_data(&public_key, 1, "tampered", &signature)
        .is_none());
}

#[test]
fn relay_is_targeted_signed_and_reports_delivery_state() {
    let key = signing_key(8);
    let public_key = id_of(&key);
    let mut registry = Registry::new();
    registry.register(client(&key, &public_key, 1, &["target", "one-sided"], None));
    registry.register(client(&key, "target", 2, &[&public_key], None));
    registry.register(client(&key, "one-sided", 3, &[], None));

    let payload = r#"{"type":"wave"}"#;
    let wave = InteractionContent::Wave;
    let relay = |recipient: &str, id: &str, connection: u128, signature: &str| {
        registry.relay_interaction(&public_key, connection, id, recipient, payload, Some(&wave), signature)
    };
    let signature = sign(&key, &interaction_bytes("interaction-1", "target", payload));
    assert_eq!(relay("target", "interaction-1", 1, &signature), InteractionRelay::Deliver);
    let signature = sign(&key, &interaction_bytes("interaction-2", "one-sided", payload));
    assert_eq!(
        relay("one-sided", "interaction-2", 1, &signature),
        InteractionRelay::Respond(InteractionDeliveryStatus::Unavailable)
    );
    assert_eq!(relay("one-sided", "interaction-2", 9, &signature), InteractionRelay::Close);
    let signature = sign(&key, &interaction_bytes("interaction-3", &public_key, payload));
    assert_eq!(
        relay(&public_key, "interaction-3", 1, &signature),
        InteractionRelay::Respond(InteractionDeliveryStatus::Rejected)
    );
    assert_eq!(relay("target", "tampered", 1, &signature), InteractionRelay::Close);
    assert_eq!(delivery_status(QueueOutcome::Queued), InteractionDeliveryStatus::Delivered);
    assert_eq!(delivery_status(QueueOutcome::Full), InteractionDeliveryStatus::Busy);
    assert_eq!(delivery_status(QueueOutcome::Closed), InteractionDeliveryStatus::Unavailable);
}

#[test]
fn relay_rejects_invalid_payloads_before_delivery() {
    let key = signing_key(8);
    let public_key = id_of(&key);
    let mut registry = Registry::new();
    registry.register(client(&key, &public_key, 1, &["target"], None));
    registry.register(client(&key, "target", 2, &[&public_key], None));

    let unknown = r#"{"type":"unknown"}"#;
    let signature = sign(&key, &interaction_bytes("unknown", "target", unknown));
    assert_eq!(
        registry.relay_interaction(&public_key, 1, "unknown", "target", unknown, None, &signature),
        InteractionRelay::Respond(InteractionDeliveryStatus::Rejected)
    );
    let oversized = "x".repeat(MAX_INTERACTION_PAYLOAD_BYTES + 1);
    let signature = sign(&key, &interaction_bytes("oversized", "target", &oversized));
    assert_eq!(
        registry.relay_interaction(
            &public_key,
            1,
            "oversized",
            "target",
            &oversized,
            Some(&InteractionContent::Wave),
            &signature
        ),
        InteractionRelay::Respond(InteractionDeliveryStatus::Rejected)
    );
}

fn jpeg(width: u32, height: u32) -> InteractionContent {
    let image = RgbImage::from_pixel(width, height, Rgb([30, 90, 150]));
    let mut bytes = Vec::new();
    image::codecs::jpeg::JpegEncoder::new_with_quality(&mut bytes, 50)
        .encode_image(&image)
        .unwrap();
    InteractionContent::Image {
        media_type: "image/jpeg".to_owned(),
        data: STANDARD.encode(bytes),
    }
}

#[test]
fn payload_validation_enforces_the_shared_schema_and_image_details() {
    assert!(content_is_deliverable(Some(&InteractionContent::Wave)));
    assert!(!content_is_deliverable(None));
    assert!(!content_is_deliverable(Some(&InteractionContent::Text {
        text: " ".to_owned()
    })));
    assert!(!content_is_deliverable(Some(&InteractionContent::Text {
        text: "x".repeat(MAX_TEXT_CHARS + 1)
    })));
    assert!(content_is_deliverable(Some(&jpeg(MAX_IMAGE_DIMENSION, MAX_IMAGE_DIMENSION))));
    assert!(!content_is_deliverable(Some(&jpeg(MAX_IMAGE_DIMENSION + 1, 1))));
    assert!(!content_is_deliverable(Some(&InteractionContent::Image {
        media_type: "image/jpeg".to_owned(),
        data: "not-base64".to_owned(),
    })));
    let InteractionContent::Image { data, .. } = jpeg(2, 2) else {
        unreachable!()
    };
    assert!(!content_is_deliverable(Some(&InteractionContent::Image {
        media_type: "image/webp".to_owned(),
        data,
    })));
}

#[test]
fn authenticated_update_changes_the_registered_client() {
    let key = signing_key(7);
    let public_key = id_of(&key);
    let mut registry = Registry::new();
    registry.register(client(&key, &public_key, 1, &["friend"], None));
    registry.register(client(&key, "friend", 2, &[&public_key], None));
    let profile = Profile {
        id: public_key.clone(),
        display_name: "New".to_owned(),
        skin_hash: None,
    };
    let signature = sign(&key, &profile_bytes(&profile));
    assert_eq!(
        registry
            .update_profile(&public_key, 1, profile.clone(), &signature)
            .unwrap(),
        ["friend"]
    );
    assert_eq!(
        registry.resolve_profile("friend", 2, &public_key).unwrap().unwrap().display_name,
        "New"
    );
    let stale = Profile {
        id: public_key.clone(),
        display_name: "Stale".to_owned(),
        skin_hash: None,
    };
    let signature = sign(&key, &profile_bytes(&stale));
    assert!(registry.update_profile(&public_key, 9, stale, &signature).is_none());
    let other = Profile {
        id: "friend".to_owned(),
        display_name: "Impostor".to_owned(),
        skin_hash: None,
    };
    let signature = sign(&key, &profile_bytes(&other));
    assert!(registry.update_profile(&public_key, 1, other, &signature).is_none());
}

#[test]
fn first_connection_announces_to_existing_subscribers() {
    let key = signing_key(7);
    let mut registry = Registry::new();
    registry.register(client(&key, "friend", 2, &["new"], None));
    registry.register(client(&key, "unrelated", 3, &[], None));
    registry.register(client(&key, "new", 1, &[], None));
    let (profile, recipients) = registry.profile_broadcast("new", 1).unwrap();
    assert_eq!(profile.id, "new");
    assert_eq!(recipients, ["friend"]);
    assert!(registry.profile_broadcast("new", 9).is_none());
}

#[test]
fn snapshot_returns_only_connected_friends_for_the_current_session() {
    let key = signing_key(7);
    let mut registry = Registry::new();
    registry.register(client(&key, "requester", 1, &["friend-b", "offline", "friend-a"], None));
    registry.register(client(&key, "friend-b", 2, &[], None));
    registry.register(client(&key, "friend-a", 3, &[], None));
    let profiles = registry.profile_snapshot("requester", 1).unwrap();
    let ids: Vec<_> = profiles.iter().map(|p| p.id.as_str()).collect();
    assert_eq!(ids, ["friend-a", "friend-b"]);
    assert!(registry.profile_snapshot("requester", 9).is_none());
}

#[test]
fn lookup_resolves_connected_users_for_only_the_current_session() {
    let key = signing_key(7);
    let mut registry = Registry::new();
    registry.register(client(&key, "requester", 1, &[], None));
    registry.register(client(&key, "target", 2, &[], None));
    assert_eq!(
        registry.resolve_profile("requester", 1, "target").unwrap().unwrap().id,
        "target"
    );
    assert!(registry.resolve_profile("requester", 1, "offline").unwrap().is_none());
    assert!(registry.resolve_profile("requester", 9, "target").is_none());
}

#[test]
fn request_requires_the_exact_advertised_hash() {
    let key = signing_key(7);
    let hash = "a".repeat(64);
    let mut registry = Registry::new();
    registry.register(client(&key, "requester", 1, &["provider"], None));
    registry.register(client(&key, "provider", 2, &["requester"], Some(&hash)));
    assert_eq!(registry.request_skin("requester", 1, "provider", &hash), SkinRequest::Forward);
    assert_eq!(
        registry.request_skin("requester", 1, "provider", &"b".repeat(64)),
        SkinRequest::Unavailable
    );
    assert_eq!(registry.request_skin("requester", 9, "provider", &hash), SkinRequest::StaleSession);
    assert_eq!(registry.provide_skin("provider", 2, "requester", &hash, Some("png")), Some(true));
    assert_eq!(registry.provide_skin("provider", 2, "requester", &"b".repeat(64), None), None);
    assert_eq!(registry.provide_skin("provider", 2, "stranger", &hash, None), Some(false));
    let too_long = "x".repeat(96 * 1024 + 1);
    assert_eq!(registry.provide_skin("provider", 2, "requester", &hash, Some(&too_long)), None);
}
