use autokey_rust::hook::{
    accepts_event, is_physical_left_alt, is_swallowed, modifier_event_flags,
    normalized_pressed_keys, physical_vk, registered_shortcut, HookState, KeyEvent, KeyOutcome,
    RightDrag, Shortcut, LLKHF_EXTENDED, LLKHF_INJECTED, WM_KEYDOWN, WM_KEYUP, WM_RBUTTONDOWN,
    WM_RBUTTONUP, WM_SYSKEYDOWN, WM_SYSKEYUP,
};
use autokey_rust::hotkey::{is_modifier, key_display_name, normalize_vk, VK_CONTROL};
use std::collections::BTreeSet;

fn keyboard_event(vk: u32, scan_code: u32, extended: bool) -> KeyEvent {
    KeyEvent {
        vk_code: vk,
        scan_code,
        flags: if extended { LLKHF_EXTENDED } else { 0 },
        message: WM_KEYDOWN,
    }
}

#[test]
fn maps_generic_modifiers_to_physical_sides() {
    assert_eq!(physical_vk(&keyboard_event(0x10, 0x2A, false)), 0xA0);
    assert_eq!(physical_vk(&keyboard_event(0x10, 0x36, false)), 0xA1);
    assert_eq!(physical_vk(&keyboard_event(0x11, 0x1D, false)), 0xA2);
    assert_eq!(physical_vk(&keyboard_event(0x11, 0x1D, true)), 0xA3);
    assert_eq!(physical_vk(&keyboard_event(0x12, 0x38, false)), 0xA4);
    assert_eq!(physical_vk(&keyboard_event(0x12, 0x38, true)), 0xA5);
}

#[test]
fn modifier_sides_stay_independent_until_hotkey_matching() {
    let mut physical = BTreeSet::from([0xA2, 0xA3, 0x5A]);
    assert_eq!(
        normalized_pressed_keys(&physical),
        BTreeSet::from([VK_CONTROL, 0x5A])
    );
    physical.remove(&0xA2);
    assert_eq!(
        normalized_pressed_keys(&physical),
        BTreeSet::from([VK_CONTROL, 0x5A])
    );
}

fn down(vk: u32) -> KeyEvent {
    KeyEvent {
        vk_code: vk,
        scan_code: 0,
        flags: 0,
        message: WM_KEYDOWN,
    }
}

fn up(vk: u32) -> KeyEvent {
    KeyEvent {
        vk_code: vk,
        scan_code: 0,
        flags: 0,
        message: WM_KEYUP,
    }
}

fn left_alt(message: u32) -> KeyEvent {
    KeyEvent {
        vk_code: 0xA4,
        scan_code: 0x38,
        flags: 0,
        message,
    }
}

#[test]
fn left_alt_alone_toggles() {
    let mut state = HookState::new();
    assert!(is_physical_left_alt(&left_alt(WM_SYSKEYDOWN)));
    let first = state.handle_keyboard_event(&left_alt(WM_SYSKEYDOWN), false, false);
    assert!(!first.toggle);
    assert!(first.suppress);
    let second = state.handle_keyboard_event(&left_alt(WM_KEYUP), false, false);
    assert!(second.toggle);
    let again = state.handle_keyboard_event(&left_alt(WM_SYSKEYUP), false, false);
    assert!(!again.toggle);
}

#[test]
fn left_alt_with_another_key_does_not_toggle() {
    let mut state = HookState::new();
    state.handle_keyboard_event(&left_alt(WM_SYSKEYDOWN), false, false);
    assert_eq!(state.replay_due(&down(0x09), true), None);
    assert_eq!(state.replay_due(&down(0x09), false), Some(0xA4));
    let tab = state.handle_keyboard_event(&down(0x09), false, true);
    assert!(!tab.suppress);
    assert_eq!(state.replay_due(&down(0x42), false), None);
    state.handle_keyboard_event(&up(0x09), false, false);
    let end = state.handle_keyboard_event(&left_alt(WM_KEYUP), false, false);
    assert!(!end.toggle);
    assert_eq!(end.release_alt, Some(0xA4));
}

#[test]
fn an_alt_that_was_not_sent_is_due_again() {
    let mut state = HookState::new();
    state.handle_keyboard_event(&left_alt(WM_SYSKEYDOWN), false, false);
    assert_eq!(state.replay_due(&down(0x09), false), Some(0xA4));
    state.handle_keyboard_event(&down(0x09), false, false);
    assert_eq!(state.replay_due(&down(0x42), false), Some(0xA4));
    let end = state.handle_keyboard_event(&left_alt(WM_KEYUP), false, false);
    assert!(end.suppress && !end.toggle);
    assert_eq!(end.release_alt, None);
}

fn generic_alt(scan_code: u32, flags: u32, message: u32) -> KeyEvent {
    KeyEvent {
        vk_code: 0x12,
        scan_code,
        flags,
        message,
    }
}

#[test]
fn left_alt_is_told_by_its_scan_code() {
    assert!(is_physical_left_alt(&generic_alt(0x38, 0, WM_SYSKEYDOWN)));
    assert!(!is_physical_left_alt(&generic_alt(0x1D, 0, WM_SYSKEYDOWN)));
    assert!(!is_physical_left_alt(&generic_alt(0x38, LLKHF_EXTENDED, WM_SYSKEYDOWN)));
    assert!(is_physical_left_alt(&down(0xA4)));
    assert!(!is_physical_left_alt(&down(0xA5)));

    let mut state = HookState::new();
    let press = state.handle_keyboard_event(&generic_alt(0x1D, 0, WM_SYSKEYDOWN), false, false);
    assert!(!press.suppress);
    let release = state.handle_keyboard_event(&generic_alt(0x1D, 0, WM_KEYUP), false, false);
    assert!(!release.suppress && !release.toggle);
    let press = state.handle_keyboard_event(&generic_alt(0x38, 0, WM_SYSKEYDOWN), false, false);
    assert!(press.suppress);
    let release = state.handle_keyboard_event(&generic_alt(0x38, 0, WM_KEYUP), false, false);
    assert!(release.suppress && release.toggle);
}

#[test]
fn left_alt_beside_a_held_key_is_no_gesture() {
    let mut state = HookState::new();
    state.handle_keyboard_event(&generic_alt(0x1D, 0, WM_SYSKEYDOWN), false, false);
    state.handle_keyboard_event(&down(0x41), false, false);
    let press = state.handle_keyboard_event(&generic_alt(0x38, 0, WM_SYSKEYDOWN), false, false);
    assert!(!press.suppress);
    let release = state.handle_keyboard_event(&generic_alt(0x38, 0, WM_KEYUP), false, false);
    assert!(!release.toggle);
}

#[test]
fn shortcuts_fire_once_until_released() {
    let mut state = HookState::new();
    state.handle_keyboard_event(&down(0xA2), false, false);
    let fired = state.handle_keyboard_event(&down(0x5A), false, false);
    assert_eq!(fired.shortcut, Some(Shortcut::NextConfig));
    let repeat = state.handle_keyboard_event(&down(0x5A), false, false);
    assert_eq!(repeat.shortcut, None);
    state.handle_keyboard_event(&up(0x5A), false, false);
    let again = state.handle_keyboard_event(&down(0x5A), false, false);
    assert_eq!(again.shortcut, Some(Shortcut::NextConfig));
    assert_eq!(
        registered_shortcut(&BTreeSet::from([0xA3, 0xA4, 0x20])),
        Some(Shortcut::BindWindow)
    );
    assert_eq!(
        registered_shortcut(&BTreeSet::from([0xA2, 0x5A, 0x41])),
        None
    );
}

#[test]
fn the_next_key_is_captured() {
    let mut state = HookState::new();
    state.begin_key_capture();
    let outcome = state.handle_keyboard_event(&down(0x41), true, false);
    assert_eq!(outcome.captured, Some(0x41));
    assert!(outcome.suppress);
    let next = state.handle_keyboard_event(&down(0x42), true, false);
    assert_eq!(next.captured, None);
    state.begin_key_capture();
    let cleared = state.handle_keyboard_event(&down(0x1B), true, false);
    assert_eq!(cleared.captured, Some(0));
    state.begin_key_capture();
    state.cancel_capture();
    let ignored = state.handle_keyboard_event(&down(0x43), true, false);
    assert_eq!(ignored.captured, None);
}

#[test]
fn injected_events_are_not_taken() {
    assert!(accepts_event(0, true, 0));
    assert!(!accepts_event(-1, true, 0));
    assert!(!accepts_event(0, false, 0));
    assert!(!accepts_event(0, true, LLKHF_INJECTED));
}

#[test]
fn swallowing_depends_on_the_release() {
    let mut outcome = KeyOutcome {
        suppress: false,
        release_alt: Some(0xA4),
        captured: None,
        toggle: false,
        shortcut: None,
    };
    assert!(is_swallowed(&outcome, true));
    assert!(!is_swallowed(&outcome, false));
    outcome.release_alt = None;
    assert!(!is_swallowed(&outcome, true));
    outcome.suppress = true;
    assert!(is_swallowed(&outcome, false));
}

#[test]
fn modifier_events_have_their_flags() {
    assert_eq!(modifier_event_flags(0xA4, false), 0);
    assert_eq!(modifier_event_flags(0xA4, true), 2);
    assert_eq!(modifier_event_flags(0xA5, true), 3);
    assert_eq!(modifier_event_flags(0x5B, false), 1);
}

#[test]
fn a_long_right_drag_binds() {
    let mut drag = RightDrag::new();
    assert!(!drag.handle_mouse_event(WM_RBUTTONUP, 100, 100));
    assert!(!drag.handle_mouse_event(WM_RBUTTONDOWN, 0, 0));
    assert!(!drag.handle_mouse_event(WM_RBUTTONUP, 8, 0));
    assert!(!drag.handle_mouse_event(WM_RBUTTONDOWN, 0, 0));
    assert!(!drag.handle_mouse_event(0x200, 50, 50));
    assert!(drag.handle_mouse_event(WM_RBUTTONUP, 9, 0));
    drag.handle_mouse_event(WM_RBUTTONDOWN, i32::MIN, i32::MIN);
    assert!(drag.handle_mouse_event(WM_RBUTTONUP, i32::MAX, i32::MAX));
}

#[test]
fn keys_have_names() {
    assert_eq!(key_display_name(0x41), "A键");
    assert_eq!(key_display_name(0x35), "5键");
    assert_eq!(key_display_name(0x69), "小键盘9");
    assert_eq!(key_display_name(0x70), "F1键");
    assert_eq!(key_display_name(0x87), "F24键");
    assert_eq!(key_display_name(0xA3), "Ctrl");
    assert_eq!(key_display_name(0x20), "空格键");
    assert_eq!(key_display_name(0xE8), "VK 232");
    for a in 0..=0x200u16 {
        for b in 0..=0x200u16 {
            assert_eq!(
                key_display_name(a) == key_display_name(b),
                normalize_vk(a) == normalize_vk(b)
            );
        }
    }
    assert_eq!(normalize_vk(0x5C), 0x5B);
    assert_eq!(normalize_vk(0x41), 0x41);
    assert!(is_modifier(0xA1));
    assert!(!is_modifier(0x41));
}
