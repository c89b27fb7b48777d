use friendolls::presence::{Change, FriendPresence};

fn active(presence: &FriendPresence) -> Vec<String> {
    presence.active_remotes().to_vec()
}

#[test]
fn live_data_routes_follow_each_remotes_online_friends() {
    let mut presence = FriendPresence::new();
    assert!(active(&presence).is_empty());
    assert!(!presence.has_online_friends("remote-a"));

    presence.replace("remote-a", vec!["friend-a".into(), "friend-b".into()]);
    presence.replace("remote-b", Vec::new());
    assert_eq!(active(&presence), vec!["remote-a".to_owned()]);
    assert!(!presence.has_online_friends("remote-b"));

    presence.update("remote-a", "friend-a".into(), false);
    assert!(presence.has_online_friends("remote-a"));
    presence.update("remote-a", "friend-b".into(), false);
    assert!(!presence.has_online_friends("remote-a"));
    assert!(active(&presence).is_empty());

    let change = presence.update("remote-b", "friend-a".into(), true).unwrap();
    assert!(change.route_added, "resuming must trigger current-state publication");
    assert!(presence.has_online_friends("remote-b"));
    assert!(!presence.has_online_friends("remote-a"));
}

#[test]
fn disconnect_snapshot_and_friend_removal_disable_live_data_routes() {
    let mut presence = FriendPresence::new();
    for remote in ["disconnected", "empty-snapshot", "removed-friend"] {
        presence.update(remote, "friend".into(), true);
    }
    presence.remove("disconnected");
    presence.replace("empty-snapshot", Vec::new());
    assert!(!presence.has_online_friends("disconnected"));
    assert!(!presence.has_online_friends("empty-snapshot"));
    assert!(presence.has_online_friends("removed-friend"));
    presence.retain(&[]);
    assert!(active(&presence).is_empty());
    assert!(!presence.has_online_friends("removed-friend"));

    let change = presence.replace("disconnected", vec!["friend".into()]).unwrap();
    assert!(change.route_added);
    assert!(presence.has_online_friends("disconnected"));
}

#[test]
fn friend_stays_online_while_any_remote_reports_presence() {
    let mut presence = FriendPresence::new();
    assert_eq!(
        presence.replace("remote-a", vec!["friend".to_owned()]),
        Some(Change {
            online: vec!["friend".to_owned()],
            came_online: vec!["friend".to_owned()],
            went_offline: Vec::new(),
            online_changed: true,
            route_added: true,
        })
    );
    assert_eq!(
        presence.replace("remote-b", vec!["friend".to_owned()]),
        Some(Change {
            online: vec!["friend".to_owned()],
            came_online: Vec::new(),
            went_offline: Vec::new(),
            online_changed: false,
            route_added: true,
        })
    );
    assert_eq!(
        presence.remove("remote-a"),
        Some(Change {
            online: vec!["friend".to_owned()],
            came_online: Vec::new(),
            went_offline: Vec::new(),
            online_changed: false,
            route_added: false,
        })
    );
    assert_eq!(
        presence.remove("remote-b"),
        Some(Change {
            online: Vec::new(),
            came_online: Vec::new(),
            went_offline: vec!["friend".to_owned()],
            online_changed: true,
            route_added: false,
        })
    );
}

#[test]
fn incremental_updates_and_friend_removal_share_the_same_snapshot() {
    let mut presence = FriendPresence::new();
    presence.replace("remote", vec!["kept".to_owned(), "removed".to_owned()]);

    let change = presence
        .update("remote", "added".to_owned(), true)
        .expect("friend came online");
    assert_eq!(change.online, ["added", "kept", "removed"]);
    assert_eq!(change.came_online, ["added"]);
    assert_eq!(
        presence
            .update("remote", "added".to_owned(), false)
            .expect("friend went offline")
            .went_offline,
        ["added"]
    );
    assert_eq!(
        presence
            .retain(&["kept".to_owned()])
            .expect("unknown friend was removed")
            .went_offline,
        ["removed"]
    );
    assert_eq!(presence.snapshot(), ["kept"]);
}

#[test]
fn unchanged_reports_produce_no_change() {
    let mut presence = FriendPresence::new();
    assert_eq!(presence.remove("missing"), None);
    assert!(presence.replace("remote", vec!["b".to_owned(), "a".to_owned()]).is_some());
    assert_eq!(presence.replace("remote", vec!["a".to_owned(), "b".to_owned()]), None);
    assert_eq!(presence.update("remote", "a".to_owned(), true), None);
    assert_eq!(presence.update("other", "c".to_owned(), false), None);
    let routes = presence.remotes_for("a").to_vec();
    assert_eq!(routes, ["remote"]);
    assert_eq!(presence.snapshot(), ["a", "b"]);
}

#[test]
fn reporting_a_new_friend_adds_a_route() {
    let mut presence = FriendPresence::new();
    presence.update("remote", "a".to_owned(), true);
    let change = presence.update("remote", "b".to_owned(), true).unwrap();
    assert!(change.route_added);
    assert_eq!(change.came_online, ["b"]);
    let change = presence.update("remote", "b".to_owned(), false).unwrap();
    assert!(!change.route_added);
    assert_eq!(change.went_offline, ["b"]);
}
