use second_brain_core::hotkey::{HotkeyError, HotkeyEvent};
use second_brain_core::keys::ModifierState;

#[test]
fn test_empty_state() {
    let state = ModifierState::default();
    assert!(state.is_empty());
    assert!(!state.is_control_only());
}

#[test]
fn test_control_only() {
    let state = ModifierState { control: true, option: false, command: false };
    assert!(!state.is_empty());
    assert!(state.is_control_only());
    assert!(!state.is_control_option());
    assert!(!state.is_control_command());
}

#[test]
fn test_control_option() {
    let state = ModifierState { control: true, option: true, command: false };
    assert!(!state.is_control_only());
    assert!(state.is_control_option());
    assert!(!state.is_control_command());
}

#[test]
fn test_control_command() {
    let state = ModifierState { control: true, option: false, command: true };
    assert!(!state.is_control_only());
    assert!(!state.is_control_option());
    assert!(state.is_control_command());
}

#[test]
fn test_hotkey_event_carries_modifiers() {
    let m = ModifierState { control: true, option: false, command: false };
    let ev = HotkeyEvent::ModifierChanged(m);
    assert_eq!(ev, HotkeyEvent::ModifierChanged(m));
    assert_ne!(ev, HotkeyEvent::TapDisabled);
}

#[test]
fn test_hotkey_error_message() {
    assert_eq!(
        HotkeyError::AlreadyRunning.message(),
        "hotkey listener is already running"
    );
    assert_eq!(
        HotkeyError::ThreadSpawn(String::from("no threads")).message(),
        "failed to spawn listener thread: no threads"
    );
}
