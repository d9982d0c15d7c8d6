use vogix::config::AppMetadata;
use vogix::errors::VogixError;
use vogix::reload::{ReloadAction, ReloadDispatcher};
use vogix::state::State;
use vogix::symlink::SymlinkManager;

fn metadata(method: &str) -> AppMetadata {
    AppMetadata {
        config_path: "/tmp/test.conf".to_string(),
        reload_method: method.to_string(),
        reload_signal: None,
        process_name: None,
        reload_command: None,
    }
}

#[test]
fn test_reload_dispatcher_creation() {
    let _dispatcher = ReloadDispatcher::new();
    assert!(true);
}

#[test]
fn test_reload_app_with_touch_method() {
    let dispatcher = ReloadDispatcher::new();
    match dispatcher.reload_app("test", &metadata("touch")) {
        Ok(step) => {
            assert!(step.message.contains("touched"));
            assert!(matches!(step.action, ReloadAction::Command(ref c) if c == "touch -h /tmp/test.conf"));
        },
        Err(_) => {
            assert!(true);
        },
    }
}

#[test]
fn test_reload_app_with_none_method() {
    let dispatcher = ReloadDispatcher::new();
    let result = dispatcher.reload_app("test", &metadata("none"));
    assert!(result.is_ok());
    assert!(result.unwrap().message.contains("no reload needed"));
}

#[test]
fn reload_signal_defaults_process_to_app_name() {
    let dispatcher = ReloadDispatcher::new();
    let mut m = metadata("signal");
    m.reload_signal = Some("USR1".to_string());
    let step = dispatcher.reload_app("btop", &m).unwrap();
    assert!(matches!(step.action, ReloadAction::Signal { ref process, ref signal } if process == "btop" && signal == "USR1"));
    assert_eq!(step.message, "sent USR1 signal");
    m.process_name = Some("btop-bin".to_string());
    let step = dispatcher.reload_app("btop", &m).unwrap();
    assert!(matches!(step.action, ReloadAction::Signal { ref process, .. } if process == "btop-bin"));
}

#[test]
fn reload_errors() {
    let dispatcher = ReloadDispatcher::new();
    assert!(matches!(dispatcher.reload_app("x", &metadata("signal")), Err(VogixError::Reload { .. })));
    assert!(matches!(dispatcher.reload_app("x", &metadata("command")), Err(VogixError::Reload { .. })));
    assert!(matches!(dispatcher.reload_app("x", &metadata("teleport")), Err(VogixError::Reload { .. })));
    let mut m = metadata("command");
    m.reload_command = Some("pkill -USR1 x".to_string());
    assert!(matches!(dispatcher.reload_app("x", &m).unwrap().action, ReloadAction::Command(ref c) if c == "pkill -USR1 x"));
}

#[test]
fn test_state_creation() {
    let state = State { current_theme: "test".to_string(), current_variant: "dark".to_string(), last_applied: None };
    assert_eq!(state.current_theme, "test");
    assert_eq!(state.current_variant, "dark");
}

#[test]
fn initial_state() {
    let state = State::initial();
    assert_eq!(state.current_theme, "aikido");
    assert_eq!(state.current_variant, "dark");
    assert!(state.last_applied.is_none());
}

#[test]
fn test_symlink_manager_creation() {
    let _manager = SymlinkManager::new();
    assert!(true);
}

#[test]
fn symlink_target_name() {
    assert_eq!(SymlinkManager::new().theme_variant_name("aikido", "night"), "aikido-night");
}

#[test]
fn error_constructors() {
    assert!(matches!(VogixError::symlink("x".to_string()), VogixError::Symlink { ref message } if message == "x"));
    assert!(matches!(VogixError::reload("y".to_string()), VogixError::Reload { ref message } if message == "y"));
}

#[test]
fn apps_with_method_none_are_not_reloaded() {
    let apps = vec![
        ("a".to_string(), metadata("touch")),
        ("b".to_string(), metadata("none")),
        ("c".to_string(), metadata("signal")),
    ];
    assert_eq!(ReloadDispatcher::new().apps_to_reload(&apps), vec![0, 2]);
    assert!(ReloadDispatcher::new().apps_to_reload(&vec![]).is_empty());
}
