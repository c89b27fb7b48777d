use base64::engine::general_purpose::URL_SAFE_NO_PAD;
use base64::Engine;
use ed25519_dalek::SigningKey;

use friendolls::common::{
    ClientMessage, InteractionDeliveryStatus, Profile, ServerMessage, VERSION,
};
use friendolls::identity::{AppKeypair, StoredKeypair};
use friendolls::network::{
    check_friend_id, check_interaction_recipient, connection_order, friend_ids,
    interaction_failure, plan_sync, same_connection_configuration, status, url, ConnectionState,
    StatusTable,
};
use friendolls::records::{Friend, Remote};
use friendolls::relay::{check_registration, Client, Registry};
use friendolls::session::{
    accept_challenge, friends_message, live_data_message, provides_skin, registration,
    resolved_display_name, resolved_skin,
};
use friendolls::strings::{StringMap, StringSet};

fn remote(id: &str, address: &str, port: Option<u16>) -> Remote {
    Remote {
        id: id.to_owned(),
        address: address.to_owned(),
        name: None,
        port,
    }
}

#[test]
fn friend_ids_discards_display_names_and_normalizes_ids() {
    let friends = vec![
        Friend {
            id: "friend-b".to_owned(),
            display_name: Some("Old name".to_owned()),
            skin_hash: None,
        },
        Friend {
            id: "self".to_owned(),
            display_name: None,
            skin_hash: None,
        },
        Friend {
            id: "friend-a".to_owned(),
            display_name: Some("Any name".to_owned()),
            skin_hash: None,
        },
    ];

    assert_eq!(friend_ids(friends, "self"), ["friend-a", "friend-b"]);
}

#[test]
fn friend_ids_are_deduplicated() {
    let friend = |id: &str| Friend {
        id: id.to_owned(),
        display_name: None,
        skin_hash: None,
    };
    assert_eq!(
        friend_ids(vec![friend("b"), friend("a"), friend("b")], "self"),
        ["a", "b"]
    );
}

#[test]
fn urls_use_the_scheme_address_and_port() {
    assert_eq!(
        url(&remote("r", "https://relay.example.com/", None)),
        "wss://relay.example.com/v1/ws"
    );
    assert_eq!(
        url(&remote("r", "relay.example.com", Some(8080))),
        "ws://relay.example.com:8080/v1/ws"
    );
    assert_eq!(
        url(&remote("r", "wss://relay.example.com//", Some(443))),
        "wss://relay.example.com:443/v1/ws"
    );
    assert_eq!(url(&remote("r", "http://10.0.0.1", Some(0))), "ws://10.0.0.1:0/v1/ws");
    assert_eq!(url(&remote("r", "ws://host", Some(65535))), "ws://host:65535/v1/ws");
}

#[test]
fn statuses_ignore_reports_from_replaced_connections() {
    let a = remote("a", "a.example", None);
    let b = remote("b", "b.example", None);
    let mut table = StatusTable::new();
    table.set_initial(&b, 1, ConnectionState::Connecting);
    table.set_initial(&a, 2, ConnectionState::Connecting);
    assert!(table.set(&a, 2, ConnectionState::Connected));
    assert!(!table.set(&a, 1, ConnectionState::Disconnected));
    let snapshot = table.snapshot();
    let ids: Vec<_> = snapshot.iter().map(|s| s.remote_id.as_str()).collect();
    assert_eq!(ids, ["a", "b"]);
    assert_eq!(snapshot[0].state, ConnectionState::Connected);
    table.remove_status("a", 1);
    assert_eq!(table.snapshot().len(), 2);
    table.remove_status("a", 2);
    assert_eq!(table.snapshot().len(), 1);
    assert_eq!(status(&b, ConnectionState::Disconnected).address, "b.example");
}

#[test]
fn configuration_changes_restart_only_the_changed_connections() {
    let mut current = StringMap::new();
    current.insert("same".to_owned(), remote("same", "s.example", None));
    current.insert("moved".to_owned(), remote("moved", "old.example", None));
    current.insert("gone".to_owned(), remote("gone", "g.example", None));
    assert!(same_connection_configuration(
        &remote("x", "h", Some(1)),
        &remote("x", "h", Some(1))
    ));
    assert!(!same_connection_configuration(
        &remote("x", "h", Some(1)),
        &remote("x", "h", None)
    ));
    let desired = vec![
        remote("same", "s.example", None),
        remote("moved", "stale.example", None),
        remote("moved", "new.example", None),
        remote("new", "n.example", Some(9)),
    ];
    let plan = plan_sync(&current, &desired);
    assert_eq!(plan.stale.to_vec(), ["gone", "moved"]);
    assert_eq!(plan.kept.len(), 1);
    assert!(plan.kept.contains_key("same"));
    assert_eq!(plan.started.len(), 2);
    assert_eq!(plan.started.get("moved").unwrap().address, "new.example");
    assert!(plan.started.contains_key("new"));
}

#[test]
fn requests_try_connected_servers_by_priority_then_id() {
    let mut priorities = StringMap::new();
    priorities.insert("c".to_owned(), 1);
    priorities.insert("b".to_owned(), 0);
    priorities.insert("a".to_owned(), 1);
    priorities.insert("down".to_owned(), -5);
    let mut table = StatusTable::new();
    for (id, state) in [
        ("a", ConnectionState::Connected),
        ("b", ConnectionState::Connected),
        ("c", ConnectionState::Connected),
        ("down", ConnectionState::Disconnected),
    ] {
        table.set_initial(&remote(id, id, None), 1, state);
    }
    assert_eq!(connection_order(&priorities, &table, &StringSet::new()), ["b", "a", "c"]);
    let mut routes = StringSet::new();
    routes.insert("c".to_owned());
    routes.insert("down".to_owned());
    assert_eq!(connection_order(&priorities, &table, &routes), ["c"]);
}

#[test]
fn interaction_errors_report_the_most_telling_status() {
    let (busy, rejected, unavailable) = (
        InteractionDeliveryStatus::Busy,
        InteractionDeliveryStatus::Rejected,
        InteractionDeliveryStatus::Unavailable,
    );
    assert_eq!(interaction_failure(&[unavailable, busy, rejected]), "Friend is busy; try again");
    assert_eq!(interaction_failure(&[rejected, unavailable]), "Relay rejected the interaction");
    assert_eq!(interaction_failure(&[]), "Friend is no longer available");
    assert!(check_interaction_recipient("me", "me").is_err());
    assert!(check_interaction_recipient("friend", "me").is_ok());
}

#[test]
fn friends_to_add_must_be_other_users() {
    let own = URL_SAFE_NO_PAD.encode(SigningKey::from_bytes(&[1; 32]).verifying_key().to_bytes());
    let other = URL_SAFE_NO_PAD.encode(SigningKey::from_bytes(&[2; 32]).verifying_key().to_bytes());
    assert!(check_friend_id(&other, &own).is_ok());
    assert_eq!(
        check_friend_id(&own, &own).unwrap_err(),
        "You cannot add your own identification key."
    );
    assert_eq!(
        check_friend_id("nope!", &own).unwrap_err(),
        "Identification key is not valid base64url."
    );
}

fn keypair(seed: u8) -> AppKeypair {
    let signing_key = SigningKey::from_bytes(&[seed; 32]);
    AppKeypair::from_stored(StoredKeypair {
        public_key: URL_SAFE_NO_PAD.encode(signing_key.verifying_key().as_bytes()),
        secret_key: URL_SAFE_NO_PAD.encode([seed; 32]),
    })
    .unwrap()
}

#[test]
fn a_client_registration_is_admitted_by_the_relay() {
    let keypair = keypair(5);
    let challenge = accept_challenge(&ServerMessage::Challenge {
        version: VERSION,
        challenge: "nonce".to_owned(),
    })
    .unwrap();
    assert!(accept_challenge(&ServerMessage::Challenge {
        version: VERSION + 1,
        challenge: "nonce".to_owned(),
    })
    .is_none());
    assert!(accept_challenge(&ServerMessage::Registered).is_none());
    let profile = Profile {
        id: keypair.public_key().to_owned(),
        display_name: "Wind".to_owned(),
        skin_hash: None,
    };
    let ClientMessage::Register {
        profile,
        friends,
        signature,
    } = registration(&keypair, &challenge, profile, vec!["friend".to_owned()])
    else {
        panic!("expected a registration");
    };
    let key = check_registration(&challenge, &profile, &friends, &signature).unwrap();
    let mut registry = Registry::new();
    registry.register(Client {
        connection_id: 1,
        key,
        profile,
        friends,
    });
    let ClientMessage::Signed { payload, signature } = live_data_message(&keypair, "data".to_owned()) else {
        panic!("expected signed live data");
    };
    assert!(registry
        .relay_live_data(keypair.public_key(), 1, &payload, &signature)
        .is_some());
    let ClientMessage::FriendsUpdated { friends, signature } = friends_message(&keypair, vec![]) else {
        panic!("expected a friend update");
    };
    assert!(registry
        .update_friends(keypair.public_key(), 1, friends, &signature)
        .is_some());
}

#[test]
fn lookup_answers_must_match_the_request() {
    let profile = Profile {
        id: "user".to_owned(),
        display_name: "Name".to_owned(),
        skin_hash: None,
    };
    assert_eq!(resolved_display_name("user", Some(profile)), Some("Name".to_owned()));
    let other = Profile {
        id: "other".to_owned(),
        display_name: "Name".to_owned(),
        skin_hash: None,
    };
    assert_eq!(resolved_display_name("user", Some(other)), None);
    assert_eq!(
        resolved_skin("user", "h", "user", "h", Some("data".to_owned())),
        Some("data".to_owned())
    );
    assert_eq!(resolved_skin("user", "h", "user", "g", Some("data".to_owned())), None);
    assert!(provides_skin(&Some("h".to_owned()), "h"));
    assert!(!provides_skin(&None, "h"));
}
