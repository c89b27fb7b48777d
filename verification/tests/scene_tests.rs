use friendolls::scene::{ActivationPolicy, Visibility, HIDE_DELAY_MS, SHOW_DELAY_MS};
use friendolls::screenshot::{toolbar_arguments, Monitor, Suppression};

const START: u64 = 1_000_000;

#[test]
fn local_puppet_hides_after_five_seconds_and_return_delays_only_local_puppet() {
    let now = START;
    let mut visibility = Visibility::new();
    visibility.update(true, false, now);
    visibility.update(true, false, now + HIDE_DELAY_MS - 1);
    assert!(visibility.show_local);
    visibility.update(true, false, now + HIDE_DELAY_MS);
    assert!(!visibility.show_local);
    assert!(!visibility.window_open(false));
    let returned = now + HIDE_DELAY_MS;
    visibility.update(true, true, returned);
    assert!(!visibility.show_local);
    assert!(visibility.window_open(true));
    visibility.update(true, true, returned + SHOW_DELAY_MS);
    assert!(visibility.show_local);
}

#[test]
fn reconnect_cancels_hide_and_disconnect_cancels_show() {
    let now = START;
    let mut visibility = Visibility::new();
    visibility.update(true, false, now);
    visibility.update(true, true, now + 4_000);
    visibility.update(true, false, now + 5_000);
    assert!(visibility.show_local);
    visibility.update(true, false, now + 10_000);
    assert!(!visibility.show_local);
    visibility.update(true, true, now + 11_000);
    visibility.update(true, false, now + 12_000);
    visibility.update(true, true, now + 14_000);
    assert!(!visibility.show_local);
    visibility.update(true, true, now + 17_000);
    assert!(visibility.show_local);
}

#[test]
fn disabling_setting_restores_local_and_cancels_pending_timer() {
    let now = START;
    let mut visibility = Visibility::new();
    visibility.update(true, false, now);
    visibility.update(true, false, now + HIDE_DELAY_MS);
    visibility.update(false, false, now + HIDE_DELAY_MS);
    assert!(visibility.show_local);
    visibility.update(true, false, now + HIDE_DELAY_MS);
    visibility.update(false, false, now + HIDE_DELAY_MS + 1_000);
    let restarted = now + HIDE_DELAY_MS + 2_000;
    visibility.update(true, false, restarted);
    visibility.update(true, false, restarted + HIDE_DELAY_MS - 1);
    assert!(visibility.show_local);
    visibility.update(true, false, restarted + HIDE_DELAY_MS);
    assert!(!visibility.show_local);
}

#[test]
fn visibility_ignores_the_setting_when_it_is_off() {
    let mut visibility = Visibility::new();
    visibility.update(false, false, START);
    visibility.update(false, false, START + 60_000);
    assert!(visibility.show_local);
    assert!(visibility.window_open(false));
}

#[test]
fn decoration_windows_do_not_keep_the_app_in_the_dock() {
    let mut policy = ActivationPolicy::new();
    policy.record_window("scene", true);
    policy.record_window("splashscreen", true);
    policy.record_window("onboarding", true);
    policy.record_window("splashscreen", false);
    assert_eq!(policy.window_count(), 1);
    policy.record_window("onboarding", false);
    assert_eq!(policy.window_count(), 0);
}

#[test]
fn action_windows_keep_the_app_in_the_dock_after_the_panel_closes() {
    let mut policy = ActivationPolicy::new();
    policy.record_window("control-panel", true);
    policy.record_window("control-panel", true);
    policy.record_window("control-panel-action-add-friend", true);
    policy.record_window("control-panel", false);
    policy.record_window("control-panel", false);
    assert_eq!(policy.window_count(), 1);
    policy.record_window("control-panel-action-add-friend", false);
    assert_eq!(policy.window_count(), 0);
    policy.record_window("control-panel", true);
    assert_eq!(policy.window_count(), 1);
}

#[test]
fn dock_state_is_applied_once_per_change() {
    let mut policy = ActivationPolicy::new();
    assert_eq!(policy.pending_change(), Some(false));
    policy.mark_applied(false);
    assert_eq!(policy.pending_change(), None);
    policy.record_window("scene", true);
    assert_eq!(policy.pending_change(), None);
    policy.record_window("control-panel", true);
    assert_eq!(policy.pending_change(), Some(true));
    policy.mark_applied(true);
    assert_eq!(policy.pending_change(), None);
    policy.record_window("control-panel", false);
    assert_eq!(policy.pending_change(), Some(false));
}

fn arguments(args: &[&str]) -> Vec<u8> {
    let mut buffer = (args.len() as i32).to_ne_bytes().to_vec();
    buffer.extend_from_slice(b"/usr/sbin/screencapture\0\0");
    for arg in args {
        buffer.extend_from_slice(arg.as_bytes());
        buffer.push(0);
    }
    buffer
}

#[test]
fn distinguishes_toolbar_from_quick_capture() {
    for flags in ["-pdiU", "-U"] {
        assert!(toolbar_arguments(&arguments(&["screencapture", flags])));
    }
    assert!(toolbar_arguments(&arguments(&[
        "screencapture",
        "-z",
        "keyboard.interactive"
    ])));
    for mode in ["keyboard.selection", "keyboard.screen"] {
        assert!(!toolbar_arguments(&arguments(&[
            "screencapture",
            "-pdi",
            "-z",
            mode
        ])));
    }
    assert!(!toolbar_arguments(&arguments(&["screencapture", "-u"])));
    assert!(!toolbar_arguments(&arguments(&[
        "screencapture",
        "--",
        "-U"
    ])));
}

#[test]
fn excludes_environment_and_malformed_arguments() {
    let mut buffer = arguments(&["screencapture", "-pd"]);
    buffer.extend_from_slice(b"keyboard.interactive\0-U\0");
    assert!(!toolbar_arguments(&buffer));
    assert!(!toolbar_arguments(&[0, 1]));
    let mut buffer = arguments(&["screencapture", "-U"]);
    buffer.pop();
    assert!(!toolbar_arguments(&buffer));
}

#[test]
fn long_options_and_the_program_name_never_ask_for_the_toolbar() {
    assert!(!toolbar_arguments(&arguments(&["-U"])));
    assert!(!toolbar_arguments(&arguments(&["screencapture", "--U"])));
    assert!(!toolbar_arguments(&arguments(&["screencapture", "-"])));
    assert!(toolbar_arguments(&arguments(&["screencapture", "-x", "-iU", "--", "x"])));
    let mut empty_count = arguments(&["screencapture", "-U"]);
    empty_count[..4].copy_from_slice(&0i32.to_ne_bytes());
    assert!(!toolbar_arguments(&empty_count));
}

#[test]
fn restoration_requires_confirmed_clear_and_reopening_cancels_it() {
    let mut state = Suppression::new();
    let now = START;
    state.observe(true, now);
    state.observe(false, now);
    assert!(state.active);
    state.observe(true, now + 200);
    state.observe(false, now + 400);
    assert!(state.active);
    state.observe(false, now + 600);
    assert!(!state.active);
}

#[test]
fn monitor_paces_scans_and_reports_only_the_first_failure() {
    let mut monitor = Monitor::new();
    assert!(monitor.scan_due(START));
    assert!(!monitor.record_scan(Some(true), START));
    assert!(monitor.suppressed());
    assert!(!monitor.scan_due(START + 499));
    assert!(monitor.scan_due(START + 500));
    assert!(monitor.record_scan(None, START + 500));
    assert!(monitor.suppressed());
    assert!(!monitor.record_scan(None, START + 1_000));
    assert!(!monitor.suppressed());
    assert!(!monitor.record_scan(Some(false), START + 1_500));
    assert!(monitor.record_scan(None, START + 2_000));
}
