use base64::engine::general_purpose::URL_SAFE_NO_PAD;
use base64::Engine;

use friendolls::common::Profile;
use friendolls::records::{profile_is_storable, requires_newer_app};
use friendolls::control_panel::check_action_window;
use friendolls::images::{blend_onto_white, check_source_size, MAX_SOURCE_BYTES};
use friendolls::network::{accept_source, live_data_targets, LiveDataSequences};
use friendolls::presence::FriendPresence;
use friendolls::routing::LiveDataKind;
use friendolls::scene::{scene_action, SceneAction};
use friendolls::strings::{StringMap, StringSet};

#[test]
fn action_windows_accept_only_control_panel_pages() {
    assert_eq!(
        check_action_window("add-friend", "Add friend", "/control-panel/add/friend").unwrap(),
        "control-panel-action-add-friend"
    );
    assert_eq!(
        check_action_window("", "Title", "/control-panel/add/x").unwrap_err(),
        "Action window name must contain only letters, numbers, or hyphens."
    );
    assert_eq!(
        check_action_window("a_b", "Title", "/control-panel/add/x").unwrap_err(),
        "Action window name must contain only letters, numbers, or hyphens."
    );
    assert_eq!(
        check_action_window("a", "  ", "/control-panel/add/x").unwrap_err(),
        "Action window title must contain between 1 and 80 characters."
    );
    assert_eq!(
        check_action_window("a", &"t".repeat(81), "/control-panel/add/x").unwrap_err(),
        "Action window title must contain between 1 and 80 characters."
    );
    assert!(check_action_window("a", &"題".repeat(80), "/control-panel/edit/1").is_ok());
    for page in [
        "/settings",
        "/control-panel/add/../secret",
        "/control-panel/edit/1?x",
        "/control-panel/edit/1#x",
    ] {
        assert_eq!(
            check_action_window("a", "Title", page).unwrap_err(),
            "Action windows can only open control-panel add or edit pages."
        );
    }
}

#[test]
fn the_scene_window_follows_the_need_for_it() {
    assert_eq!(scene_action(true, false), SceneAction::Create);
    assert_eq!(scene_action(false, true), SceneAction::Destroy);
    assert_eq!(scene_action(true, true), SceneAction::Keep);
    assert_eq!(scene_action(false, false), SceneAction::Keep);
}

#[test]
fn picked_images_are_bounded_and_blended_onto_white() {
    assert_eq!(check_source_size(0).unwrap_err(), "Choose an image file");
    assert_eq!(
        check_source_size(MAX_SOURCE_BYTES + 1).unwrap_err(),
        "The selected image must be at most 25 MiB"
    );
    assert!(check_source_size(MAX_SOURCE_BYTES).is_ok());
    assert_eq!(blend_onto_white(20, 255), 20);
    assert_eq!(blend_onto_white(20, 0), 255);
    assert_eq!(blend_onto_white(20, 128), 137);
}

#[test]
fn live_data_sequences_count_per_kind() {
    let mut sequences = LiveDataSequences::new();
    assert_eq!(sequences.take(LiveDataKind::Cursor), 1);
    assert_eq!(sequences.take(LiveDataKind::Cursor), 2);
    assert_eq!(sequences.take(LiveDataKind::Activity), 1);
    assert_eq!(sequences.take(LiveDataKind::Cursor), 3);
}

#[test]
fn live_data_goes_to_connections_with_online_friends() {
    let mut connections = StringSet::new();
    connections.insert("a".to_owned());
    connections.insert("b".to_owned());
    let mut active = StringSet::new();
    active.insert("b".to_owned());
    active.insert("gone".to_owned());
    assert_eq!(live_data_targets(&connections, &active).to_vec(), ["b"]);
}

#[test]
fn profiles_are_taken_from_the_preferred_server() {
    let mut presence = FriendPresence::new();
    presence.update("fast", "friend".to_owned(), true);
    presence.update("slow", "friend".to_owned(), true);
    let mut priorities = StringMap::new();
    priorities.insert("fast".to_owned(), 0);
    priorities.insert("slow".to_owned(), 5);
    priorities.insert("new".to_owned(), -1);
    assert!(accept_source(&presence, &priorities, "fast", "friend"));
    assert!(!accept_source(&presence, &priorities, "slow", "friend"));
    assert!(accept_source(&presence, &priorities, "new", "friend"));
    assert!(!accept_source(&presence, &priorities, "unknown", "friend"));
}

#[test]
fn entered_friend_ids_are_trimmed_and_checked() {
    let own = URL_SAFE_NO_PAD.encode(ed25519_dalek::SigningKey::from_bytes(&[1; 32]).verifying_key().to_bytes());
    let other = URL_SAFE_NO_PAD.encode(ed25519_dalek::SigningKey::from_bytes(&[2; 32]).verifying_key().to_bytes());
    let friend = friendolls::records::new_friend(&format!("  {other}\n"), &own).unwrap();
    assert_eq!(friend.id, other);
    assert!(friend.display_name.is_none());
    assert_eq!(
        friendolls::records::new_friend(&format!(" {own} "), &own).unwrap_err(),
        "You cannot add your own identification key."
    );
    assert_eq!(friendolls::records::trim("\t a b \u{3000}"), "a b");
    assert_eq!(friendolls::records::trim("   "), "");
}

#[test]
fn stored_profiles_need_well_formed_skins_and_known_migrations() {
    let mut profile = Profile {
        id: "id".to_owned(),
        display_name: "Name".to_owned(),
        skin_hash: None,
    };
    assert!(profile_is_storable(&profile));
    profile.skin_hash = Some("../skin".to_owned());
    assert!(!profile_is_storable(&profile));
    assert!(requires_newer_app(true, Some(5), Some(4)));
    assert!(!requires_newer_app(true, Some(4), Some(4)));
    assert!(!requires_newer_app(false, Some(5), Some(4)));
    assert!(!requires_newer_app(true, None, Some(4)));
}
