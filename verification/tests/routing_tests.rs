use friendolls::routing::{preferred_remote, LiveDataKind, SequenceTracker};
use friendolls::strings::{StringMap, StringSet};

#[test]
fn rejects_duplicate_out_of_order_and_retired_session_packets() {
    let mut tracker = SequenceTracker::new();
    let first = uuid::Uuid::new_v4().to_string();
    let second = uuid::Uuid::new_v4().to_string();
    let cursor = LiveDataKind::Cursor;

    assert!(tracker.accept("friend", &first, 2, cursor));
    assert!(!tracker.accept("friend", &first, 2, cursor));
    assert!(!tracker.accept("friend", &first, 1, cursor));
    assert!(tracker.accept("friend", &second, 1, cursor));
    assert!(!tracker.accept("friend", &first, 3, cursor));
    assert!(tracker.accept("friend", &second, 2, cursor));
}

#[test]
fn relay_duplicates_do_not_block_a_newer_stream_packet() {
    let mut tracker = SequenceTracker::new();
    let session = uuid::Uuid::new_v4().to_string();
    let cursor = LiveDataKind::Cursor;

    assert!(tracker.accept("friend", &session, 7, cursor));
    assert!(!tracker.accept("friend", &session, 7, cursor));
    assert!(tracker.accept("friend", &session, 8, cursor));
}

#[test]
fn preferred_remote_uses_priority_then_stable_id() {
    let mut sources = StringSet::new();
    for id in ["lower", "higher-b", "higher-a"] {
        sources.insert(id.to_owned());
    }
    let mut priorities = StringMap::new();
    priorities.insert("lower".to_owned(), 3);
    priorities.insert("higher-b".to_owned(), 1);
    priorities.insert("higher-a".to_owned(), 1);

    assert_eq!(
        preferred_remote(&sources, &priorities).as_deref(),
        Some("higher-a")
    );
}

#[test]
fn remotes_without_priority_are_not_candidates() {
    let mut sources = StringSet::new();
    sources.insert("unknown".to_owned());
    let priorities: StringMap<i32> = StringMap::new();
    assert_eq!(preferred_remote(&sources, &priorities), None);
}

#[test]
fn streams_are_tracked_per_kind_and_friend_and_need_uuid_sessions() {
    let mut tracker = SequenceTracker::new();
    let session = uuid::Uuid::new_v4().to_string();
    assert!(!tracker.accept("friend", "not-a-uuid", 1, LiveDataKind::Cursor));
    assert!(!tracker.accept("friend", &session, 0, LiveDataKind::Cursor));
    assert!(tracker.accept("friend", &session, 5, LiveDataKind::Cursor));
    assert!(tracker.accept("friend", &session, 1, LiveDataKind::Activity));
    assert!(tracker.accept("other", &session, 1, LiveDataKind::Cursor));
    tracker.retain(&["other".to_owned()]);
    assert!(tracker.accept("friend", &session, 1, LiveDataKind::Cursor));
    assert!(!tracker.accept("other", &session, 1, LiveDataKind::Cursor));
}

#[test]
fn only_the_four_latest_retired_sessions_are_remembered() {
    let mut tracker = SequenceTracker::new();
    let sessions: Vec<String> = (0..6).map(|_| uuid::Uuid::new_v4().to_string()).collect();
    for session in &sessions {
        assert!(tracker.accept("friend", session, 1, LiveDataKind::Cursor));
    }
    // The first session fell out of the retired list; the second did not.
    assert!(!tracker.accept("friend", &sessions[1], 9, LiveDataKind::Cursor));
    assert!(tracker.accept("friend", &sessions[0], 9, LiveDataKind::Cursor));
}
