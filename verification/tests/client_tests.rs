use std::io::Cursor;

use base64::engine::general_purpose::STANDARD;
use base64::Engine;

use friendolls::activity::{
    foreground_app_activity, validate_activities, Activity, ActivityKind, ActivityState,
    LIVE_DATA_ENVELOPE_BYTES, MAX_ACTIVITY_SOURCES,
};
use friendolls::common::{InteractionContent, MAX_TEXT_CHARS};
use friendolls::interactions::{dedupe_id, validate_content, SeenInteractions, SEEN_INTERACTION_LIMIT};
use friendolls::permission::AccessibilityPermissionState;
use friendolls::records::{command_error, display_name_or_anonymous, PuppetMovementMode};
use friendolls::settings::{
    check_locale_preference, is_supported_preference, locale_settings, localized_text,
    resolve_locale, NativeText, SettingsState,
};
use friendolls::skins::{decode_response, hash, validate, validate_hash, verified_bytes, SKIN_HEIGHT, SKIN_WIDTH};
use friendolls::strings::StringMap;

#[test]
fn resolves_exact_and_language_only_locales() {
    assert_eq!(resolve_locale(Some("zh-CN")), "zh-CN");
    assert_eq!(resolve_locale(Some("zh_SG")), "zh-CN");
    assert_eq!(resolve_locale(Some("en-GB")), "en");
}

#[test]
fn unsupported_locales_fall_back_to_english() {
    assert_eq!(resolve_locale(Some("ja-JP")), "en");
    assert_eq!(resolve_locale(None), "en");
}

#[test]
fn locale_matching_ignores_ascii_case() {
    assert_eq!(resolve_locale(Some("ZH-cn")), "zh-CN");
    assert_eq!(resolve_locale(Some("EN")), "en");
    assert_eq!(resolve_locale(Some("zh")), "zh-CN");
    assert_eq!(resolve_locale(Some("")), "en");
    assert_eq!(resolve_locale(Some("zhx-CN")), "en");
}

#[test]
fn preferences_follow_the_system_or_a_supported_locale() {
    assert!(is_supported_preference("system"));
    assert!(is_supported_preference("en"));
    assert!(is_supported_preference("zh-CN"));
    assert!(!is_supported_preference("zh-cn"));
    assert_eq!(
        check_locale_preference("fr").unwrap_err(),
        "Unsupported locale preference"
    );
    let system = locale_settings("system", Some("zh_TW"));
    assert_eq!(system.preference, "system");
    assert_eq!(system.locale, "zh-CN");
    let fixed = locale_settings("en", Some("zh_TW"));
    assert_eq!(fixed.locale, "en");
    assert_eq!(locale_settings("system", None).locale, "en");
}

#[test]
fn native_texts_follow_the_locale() {
    assert_eq!(localized_text("zh-CN", NativeText::Quit), "退出");
    assert_eq!(localized_text("en", NativeText::Quit), "Quit");
    assert_eq!(localized_text("ja", NativeText::SceneTitle), "Scene");
    let mut state = SettingsState::new(locale_settings("en", None));
    assert_eq!(state.text(NativeText::Images), "Images");
    state.replace(locale_settings("zh-CN", None));
    assert_eq!(state.text(NativeText::Images), "图片");
    assert_eq!(state.current().preference, "zh-CN");
}

#[test]
fn permission_state_reports_only_actual_transitions() {
    let mut state = AccessibilityPermissionState::new(false);

    assert!(!state.replace(false));
    assert!(state.replace(true));
    assert!(!state.replace(true));
    assert!(state.replace(false));
    assert!(!state.granted());
}

#[test]
fn validates_interaction_content_limits() {
    assert!(validate_content(&InteractionContent::Wave).is_ok());
    assert!(InteractionContent::Text {
        text: "hello".to_owned()
    }
    .validate()
    .is_ok());
    assert!(InteractionContent::Text {
        text: " ".to_owned()
    }
    .validate()
    .is_err());
    assert!(InteractionContent::Text {
        text: "x".repeat(MAX_TEXT_CHARS + 1)
    }
    .validate()
    .is_err());
    assert!(InteractionContent::Image {
        media_type: "image/png".to_owned(),
        data: STANDARD.encode([1, 2, 3]),
    }
    .validate()
    .is_err());
}

#[test]
fn image_content_must_carry_standard_base64() {
    let valid = InteractionContent::Image {
        media_type: "image/webp".to_owned(),
        data: STANDARD.encode([1, 2, 3]),
    };
    assert!(validate_content(&valid).is_ok());
    let invalid = InteractionContent::Image {
        media_type: "image/webp".to_owned(),
        data: "not base64!".to_owned(),
    };
    assert_eq!(
        validate_content(&invalid).unwrap_err(),
        "Image contains invalid Base64 data"
    );
}

#[test]
fn received_interaction_ids_are_bounded_and_deduplicated() {
    let mut seen = SeenInteractions::new();
    assert!(seen.insert("first".to_owned()));
    assert!(!seen.insert("first".to_owned()));
    for index in 0..SEEN_INTERACTION_LIMIT {
        assert!(seen.insert(format!("id-{index}")));
    }
    assert_eq!(seen.len(), SEEN_INTERACTION_LIMIT);
    assert!(seen.insert("first".to_owned()));
}

#[test]
fn received_interactions_are_keyed_by_friend_and_id() {
    assert_eq!(dedupe_id("friend", "id"), "friend\0id");
    let mut seen = SeenInteractions::new();
    assert_eq!(seen.receive("friend", "1", &InteractionContent::Wave), Ok(true));
    assert_eq!(seen.receive("friend", "1", &InteractionContent::Wave), Ok(false));
    assert_eq!(seen.receive("other", "1", &InteractionContent::Wave), Ok(true));
    let blank = InteractionContent::Text {
        text: " ".to_owned(),
    };
    assert_eq!(
        seen.receive("friend", "2", &blank),
        Err("Message cannot be empty".to_owned())
    );
    assert_eq!(seen.len(), 2);
}

fn activity(name: &str) -> Activity {
    Activity {
        kind: ActivityKind::Application,
        name: Some(name.to_owned()),
        details: None,
        icon: None,
    }
}

fn set_source(state: &mut ActivityState, user: &str, source: &str, activity: Option<Activity>) {
    let next = state.with_source(user, source.to_owned(), activity);
    state.replace(user.to_owned(), next, 64).unwrap();
}

#[test]
fn activity_sources_coexist_and_can_be_cleared_independently() {
    let mut state = ActivityState::new(64 * 1024);
    set_source(&mut state, "user", "foreground-app", Some(activity("Editor")));
    set_source(&mut state, "user", "media", Some(activity("Song")));

    let activities = state.get("user").unwrap();
    assert_eq!(activities.len(), 2);

    set_source(&mut state, "user", "media", None);
    let activities = state.get("user").unwrap();
    assert_eq!(activities.len(), 1);
    assert_eq!(
        activities.get("foreground-app").unwrap().name.as_deref(),
        Some("Editor")
    );
}

#[test]
fn rejects_oversized_activity_sets_without_replacing_cached_data() {
    let mut state = ActivityState::new(64 * 1024);
    let mut initial = StringMap::new();
    initial.insert("foreground-app".to_owned(), activity("Editor"));
    state.replace("user".to_owned(), initial, 64).unwrap();

    let mut oversized = StringMap::new();
    for index in 0..=MAX_ACTIVITY_SOURCES {
        oversized.insert(format!("source-{index}"), activity("Activity"));
    }
    assert!(state.replace("user".to_owned(), oversized, 64).is_err());
    assert_eq!(
        state
            .get("user")
            .unwrap()
            .get("foreground-app")
            .unwrap()
            .name
            .as_deref(),
        Some("Editor")
    );
}

#[test]
fn activity_checks_report_each_limit() {
    let mut long_name = StringMap::new();
    long_name.insert("app".to_owned(), activity(&"x".repeat(513)));
    assert_eq!(
        validate_activities(&long_name, 10, 100).unwrap_err(),
        "activity name exceeds 512 bytes"
    );
    let mut blank_source = StringMap::new();
    blank_source.insert(" ".to_owned(), activity("App"));
    assert_eq!(
        validate_activities(&blank_source, 10, 100).unwrap_err(),
        "activity source must contain 1 to 64 bytes"
    );
    let mut fine = StringMap::new();
    fine.insert("app".to_owned(), activity("App"));
    assert_eq!(
        validate_activities(&fine, 101, 100).unwrap_err(),
        "activity update exceeds 100 serialized bytes"
    );
    assert!(validate_activities(&fine, 100, 100).is_ok());
    let icon = Activity {
        kind: ActivityKind::Custom,
        name: None,
        details: None,
        icon: Some("i".repeat(50_001)),
    };
    assert_eq!(icon.validate().unwrap_err(), "activity icon exceeds 50000 bytes");
}

#[test]
fn clearing_every_source_forgets_the_user_and_removal_reports_who_was_known() {
    let mut state = ActivityState::new(LIVE_DATA_ENVELOPE_BYTES + 100);
    set_source(&mut state, "a", "app", Some(activity("A")));
    set_source(&mut state, "b", "app", Some(activity("B")));
    set_source(&mut state, "a", "app", None);
    assert!(state.get("a").is_none());
    let removed = state.remove_users(&["b".to_owned(), "c".to_owned(), "b".to_owned()]);
    assert_eq!(removed, vec!["b".to_owned()]);
    assert_eq!(state.snapshot().len(), 0);
}

#[test]
fn foreground_app_names_prefer_the_localized_name() {
    let both = foreground_app_activity(Some("Finder".to_owned()), Some("Finder".to_owned()), None);
    assert_eq!(both.name.as_deref(), Some("Finder"));
    assert_eq!(both.details, None);
    let differ = foreground_app_activity(Some("访达".to_owned()), Some("Finder".to_owned()), None);
    assert_eq!(differ.name.as_deref(), Some("访达"));
    assert_eq!(differ.details.as_deref(), Some("Finder"));
    let only_unlocal = foreground_app_activity(None, Some("Finder".to_owned()), Some("icon".to_owned()));
    assert_eq!(only_unlocal.name.as_deref(), Some("Finder"));
    assert_eq!(only_unlocal.icon.as_deref(), Some("icon"));
}

fn png(width: u32, height: u32) -> Vec<u8> {
    let mut bytes = Cursor::new(Vec::new());
    image::DynamicImage::new_rgba8(width, height)
        .write_to(&mut bytes, image::ImageFormat::Png)
        .unwrap();
    bytes.into_inner()
}

#[test]
fn rejects_non_png_and_invalid_hashes() {
    assert!(validate(b"not a png").is_err());
    assert!(validate_hash("../skin").is_err());
    assert!(validate_hash(&"a".repeat(64)).is_ok());
}

#[test]
fn rejects_png_dimensions_before_full_validation() {
    let bytes = png(SKIN_WIDTH + 1, SKIN_HEIGHT);
    assert_eq!(validate(&bytes).unwrap_err(), "Skin must be 64×64 pixels");
}

#[test]
fn accepts_a_64_by_64_png_and_returns_its_sha256_hash() {
    let bytes = png(SKIN_WIDTH, SKIN_HEIGHT);
    assert_eq!(validate(&bytes).unwrap(), hash(&bytes));
}

#[test]
fn skin_hash_is_the_hex_sha256_digest() {
    assert_eq!(
        hash(b"abc"),
        "ba7816bf8f01cfea414140de5dae2223b00361a396177a9cb410ff61f20015ad"
    );
    assert!(validate_hash(&hash(b"")).is_ok());
    assert_eq!(validate(&[]).unwrap_err(), "Skin PNG must be at most 64 KiB");
}

#[test]
fn skin_responses_must_match_the_requested_hash() {
    let bytes = png(SKIN_WIDTH, SKIN_HEIGHT);
    let skin_hash = hash(&bytes);
    let data = STANDARD.encode(&bytes);
    assert_eq!(decode_response(&data, &skin_hash), Some(bytes.clone()));
    assert_eq!(decode_response(&data, &"0".repeat(64)), None);
    assert_eq!(decode_response("not base64!", &skin_hash), None);
    assert_eq!(verified_bytes(bytes.clone(), &skin_hash), Some(bytes.clone()));
    assert_eq!(verified_bytes(b"junk".to_vec(), &skin_hash), None);
}

#[test]
fn stored_profiles_without_a_name_are_anonymous() {
    assert_eq!(display_name_or_anonymous(String::new()), "Anonymous");
    assert_eq!(display_name_or_anonymous("Wind".to_owned()), "Wind");
    assert_eq!(PuppetMovementMode::default(), PuppetMovementMode::Free);
    assert_eq!(command_error("database is locked"), "database is locked");
}
