use launcher::logger::{is_startup_diag_message, logs_enabled_from_env};

#[test]
fn logs_are_enabled_by_default_when_env_unset() {
    assert!(logs_enabled_from_env(false, None));
    assert!(logs_enabled_from_env(false, Some("1")));
    assert!(logs_enabled_from_env(false, Some("true")));
    assert!(logs_enabled_from_env(true, None));
}

#[test]
fn logs_can_be_explicitly_disabled_via_env() {
    assert!(!logs_enabled_from_env(false, Some("0")));
    assert!(!logs_enabled_from_env(false, Some("false")));
    assert!(!logs_enabled_from_env(false, Some("no")));
    assert!(!logs_enabled_from_env(false, Some("off")));
}

#[test]
fn startup_diag_messages_are_still_classified_when_logging_is_enabled() {
    assert!(is_startup_diag_message("[stage2] all patches done"));
    assert!(is_startup_diag_message(
        "[launch-time] launch_game start"
    ));
    assert!(is_startup_diag_message(
        "[inject] transform_file=false but valid pak exists; forcing FileHook: D:\\lineage3.81C\\TW13081901.pak"
    ));
    assert!(!is_startup_diag_message("[drink] execute OK"));
}
