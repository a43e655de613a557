use autokey_rust::engine::HeldKey;
use autokey_rust::input::{
    event_flags, injection_result, input_target, is_extended_key, key_down, key_up, message_bits,
    post_failure, send_key_event, unbind_after_failure, validate_vk, InputTarget, KeyDispatch,
    KeyFacts,
};
use autokey_rust::window::{
    bind_first_valid_window, bindable_root_hwnd, binding_candidates, binding_status,
    capture_bound_window, enumerate_windows, is_bindable_window, is_own_main_window,
    is_own_process_window, is_shell_or_desktop, is_window_valid, window_owner, BoundWindow,
    WindowBinding, WindowCapture, WindowFacts, WindowInfo, WindowObservation,
};

fn observation() -> WindowObservation {
    WindowObservation {
        process_alive: true,
        is_window: true,
        thread_id: 1,
        process_id: 2,
        class_name: Some("test".to_owned()),
    }
}

fn dummy_target(hwnd: isize) -> BoundWindow {
    BoundWindow {
        hwnd,
        process_id: 2,
        thread_id: 1,
        class_name: "test".to_owned(),
        title_at_bind: "test".to_owned(),
    }
}

fn capture(hwnd: isize) -> WindowCapture {
    WindowCapture {
        root: Some(hwnd),
        owner: Some((1, 2)),
        class_name: Some("test".to_owned()),
        title: "test".to_owned(),
        process_error: None,
        seen: observation(),
    }
}

#[test]
fn stale_snapshot_cannot_clear_new_binding() {
    let mut binding = WindowBinding::new();
    binding.bind_candidate(capture(1)).unwrap();
    let stale = binding.snapshot().unwrap();
    binding.bind_candidate(capture(2)).unwrap();

    assert!(!binding.clear_if_current(&stale));
    assert_eq!(binding.snapshot().unwrap().target().hwnd(), 2);
}

#[test]
fn stale_snapshot_cannot_dispatch_to_old_target() {
    let mut binding = WindowBinding::new();
    binding.bind_candidate(capture(1)).unwrap();
    let stale = binding.snapshot().unwrap();
    binding.bind_candidate(capture(2)).unwrap();

    let called = std::sync::atomic::AtomicBool::new(false);
    let result = binding.with_current_target(&stale, &observation(), |_| {
        called.store(true, std::sync::atomic::Ordering::Release);
        Ok(())
    });
    assert!(result.is_err());
    assert!(!called.load(std::sync::atomic::Ordering::Acquire));
}

#[test]
fn invalid_window_identity_is_rejected() {
    assert!(!dummy_target(0).validate(&observation()));
}

#[test]
fn identity_is_handle_owner_and_class() {
    let target = dummy_target(5);
    assert!(target.validate(&observation()));
    let mut seen = observation();
    seen.process_alive = false;
    assert!(!target.validate(&seen));
    let mut seen = observation();
    seen.is_window = false;
    assert!(!target.validate(&seen));
    let mut seen = observation();
    seen.thread_id = 9;
    assert!(!target.validate(&seen));
    let mut seen = observation();
    seen.process_id = 0;
    assert!(!target.validate(&seen));
    let mut seen = observation();
    seen.class_name = Some("other".to_owned());
    assert!(!target.validate(&seen));
    seen.class_name = None;
    assert!(!target.validate(&seen));
    assert_eq!(target.title(String::new()), "test");
    assert_eq!(target.title("now".to_owned()), "now");
    assert!(!is_window_valid(0, true));
    assert_eq!(window_owner(1, true, 3, 4), Some((3, 4)));
    assert_eq!(window_owner(1, true, 0, 4), None);
    assert_eq!(window_owner(1, false, 3, 4), None);
}

#[test]
fn captures_fail_with_a_reason() {
    let mut c = capture(1);
    c.root = None;
    assert_eq!(capture_bound_window(c).unwrap_err(), "未找到可绑定的目标窗口");
    let mut c = capture(1);
    c.owner = None;
    assert_eq!(capture_bound_window(c).unwrap_err(), "无法读取目标窗口身份");
    let mut c = capture(1);
    c.class_name = None;
    assert_eq!(capture_bound_window(c).unwrap_err(), "无法读取目标窗口类");
    let mut c = capture(1);
    c.class_name = Some(String::new());
    c.process_error = Some("拒绝".to_owned());
    assert_eq!(capture_bound_window(c).unwrap_err(), "目标窗口类为空");
    let mut c = capture(1);
    c.process_error = Some("拒绝".to_owned());
    assert_eq!(capture_bound_window(c).unwrap_err(), "拒绝");
    let mut c = capture(1);
    c.seen.process_alive = false;
    assert_eq!(
        capture_bound_window(c).unwrap_err(),
        "目标窗口在绑定过程中已变化，请重试"
    );
    assert_eq!(capture_bound_window(capture(7)).unwrap().hwnd(), 7);
}

#[test]
fn a_key_is_released_in_the_window_it_was_pressed_in() {
    let mut binding = WindowBinding::new();
    binding.bind_candidate(capture(3)).unwrap();
    let held = HeldKey::press(&binding.snapshot(), 0x41);
    binding.bind_candidate(capture(4)).unwrap();
    assert_eq!(held.release(), (InputTarget::Window(3), 0x41));
    binding.clear();
    let held = HeldKey::press(&binding.snapshot(), 0x41);
    assert_eq!(held.release(), (InputTarget::Foreground, 0x41));
}

#[test]
fn actions_reach_the_current_window_only() {
    let mut binding = WindowBinding::new();
    assert!(binding.snapshot().is_none());
    let snapshot = binding.bind_candidate(capture(3)).unwrap();
    assert!(binding.is_current(&snapshot, &observation()));
    let hwnd = binding.with_current_target(&snapshot, &observation(), |target| Ok(target.hwnd()));
    assert_eq!(hwnd, Ok(3));
    let failed: Result<(), String> =
        binding.with_current_target(&snapshot, &observation(), |_| Err("no".to_owned()));
    assert_eq!(failed, Err("no".to_owned()));
    let mut gone = observation();
    gone.is_window = false;
    assert!(!binding.is_current(&snapshot, &gone));
    let gone_result = binding.with_current_target(&snapshot, &gone, |_| -> Result<(), String> {
        panic!("the window is lost")
    });
    assert_eq!(gone_result, Err("绑定窗口身份已变化或窗口已失效".to_owned()));
    assert!(binding.clear_if_current(&snapshot));
    assert!(binding.snapshot().is_none());
    let cleared = binding.with_current_target(&snapshot, &observation(), |_| -> Result<(), String> {
        panic!("the binding was changed")
    });
    assert_eq!(cleared, Err("绑定窗口已更改".to_owned()));
    binding.clear();
    assert!(!binding.is_current(&snapshot, &observation()));
    let mut failing = capture(4);
    failing.root = None;
    binding.bind_candidate(capture(9)).unwrap();
    assert!(binding.bind_candidate(failing).is_err());
    assert_eq!(binding.snapshot().unwrap().target().hwnd(), 9);
}

fn facts(hwnd: isize) -> WindowFacts {
    WindowFacts {
        hwnd,
        is_window: true,
        process_id: 10,
        own_process_id: 20,
        desktop: 100,
        shell: 101,
        shell_root: 102,
        visible: true,
        extended_style: 0x100,
    }
}

#[test]
fn only_ordinary_windows_are_bound() {
    assert!(is_bindable_window(&facts(1)));
    for hwnd in [0, 100, 101, 102] {
        assert!(!is_bindable_window(&facts(hwnd)));
        assert!(is_shell_or_desktop(&facts(hwnd)));
    }
    let mut own = facts(1);
    own.process_id = 20;
    assert!(is_own_process_window(&own));
    assert!(!is_bindable_window(&own));
    let mut hidden = facts(1);
    hidden.visible = false;
    assert!(!is_bindable_window(&hidden));
    let mut tool = facts(1);
    tool.extended_style = 0x180;
    assert!(!is_bindable_window(&tool));
    let list = vec![own, tool, facts(6), facts(7)];
    assert_eq!(bindable_root_hwnd(true, &list), Some(6));
    assert_eq!(bindable_root_hwnd(false, &list), None);
    assert_eq!(bindable_root_hwnd(true, &vec![own]), None);
    assert!(is_own_main_window(5, 5, "调度器 - 默认"));
    assert!(!is_own_main_window(5, 6, "调度器 - 默认"));
    assert!(!is_own_main_window(5, 5, "设置"));
}

#[test]
fn the_first_window_that_works_is_bound() {
    assert_eq!(binding_candidates(&vec![0, 5, 5, 7, 0, 5]), vec![5, 7]);
    let mut binding = WindowBinding::new();
    let mut broken = capture(5);
    broken.owner = None;
    let bound = bind_first_valid_window(&mut binding, vec![broken, capture(7), capture(8)]);
    assert_eq!(bound.unwrap().target().hwnd(), 7);
    assert!(bind_first_valid_window(&mut binding, Vec::new()).is_none());
    assert!(binding.snapshot().is_none());
    assert_eq!(binding_status(Some("记事本".to_owned()), 1), "已绑定: 记事本");
    assert_eq!(binding_status(Some(String::new()), 0x1F), "已绑定窗口 0x1f");
    assert_eq!(binding_status(None, 0), "未找到可绑定窗口");
    assert_eq!(
        binding_status(Some(String::new()), -1),
        format!("已绑定窗口 {:#x}", -1isize)
    );
}

#[test]
fn windows_are_listed_by_title() {
    let found: Vec<WindowInfo> = [(1, "b"), (2, ""), (3, "A"), (4, "B"), (4, "b"), (5, "a")]
        .iter()
        .map(|(hwnd, title)| WindowInfo {
            hwnd: *hwnd,
            title: title.to_string(),
        })
        .collect();
    let listed: Vec<(isize, String)> = enumerate_windows(found)
        .into_iter()
        .map(|window| (window.hwnd, window.title))
        .collect();
    let expected: Vec<(isize, String)> = [(3, "A"), (5, "a"), (1, "b"), (4, "B")]
        .iter()
        .map(|(hwnd, title)| (*hwnd, title.to_string()))
        .collect();
    assert_eq!(listed, expected);
}

#[test]
fn validates_virtual_key_range() {
    assert!(validate_vk(0).is_err());
    assert!(validate_vk(0x41).is_ok());
    assert!(validate_vk(255).is_err());
}

const FACTS: KeyFacts = KeyFacts {
    scan_code: 0x1E,
    is_window: true,
    repeat: false,
};

#[test]
fn key_events_are_injected_in_front() {
    match key_down(InputTarget::Foreground, 0x41, FACTS).unwrap() {
        KeyDispatch::Inject { vk_code, flags, extra_info } => {
            assert_eq!((vk_code, flags), (0x41, 0));
            assert!((100_000_000..5_000_000_000).contains(&extra_info));
        }
        other => panic!("{other:?}"),
    }
    match key_up(InputTarget::Foreground, 0x25, FACTS).unwrap() {
        KeyDispatch::Inject { vk_code, flags, .. } => assert_eq!((vk_code, flags), (0x25, 3)),
        other => panic!("{other:?}"),
    }
    assert_eq!(
        send_key_event(InputTarget::Foreground, 300, false, FACTS).unwrap_err(),
        "虚拟键码 300 超出有效范围 1..=254"
    );
}

#[test]
fn key_events_are_posted_to_the_bound_window() {
    match key_up(InputTarget::Window(77), 0x41, FACTS).unwrap() {
        KeyDispatch::Post { hwnd, message, vk_code, lparam } => {
            assert_eq!((hwnd, message, vk_code), (77, 0x101, 0x41));
            assert_eq!(lparam as u32, 0xC01E_0001);
        }
        other => panic!("{other:?}"),
    }
    match key_down(InputTarget::Window(77), 0x25, FACTS).unwrap() {
        KeyDispatch::Post { message, lparam, .. } => {
            assert_eq!(message, 0x100);
            assert_eq!(lparam as u32 & 0xE1FF_FFFF, 0x011E_0001);
        }
        other => panic!("{other:?}"),
    }
    let gone = KeyFacts { is_window: false, ..FACTS };
    assert_eq!(
        key_down(InputTarget::Window(77), 0x41, gone).unwrap_err(),
        "绑定窗口已失效"
    );
    assert!(key_down(InputTarget::Foreground, 0x41, gone).is_ok());
}

#[test]
fn message_parts_are_exact() {
    assert_eq!(message_bits(0x41, 0x1E, false), 0x001E_0001);
    assert_eq!(message_bits(0x41, 0x1E, true), 0xC01E_0001);
    assert_eq!(message_bits(0x2D, 0x52, false), 0x0152_0001);
    assert_eq!(event_flags(0x41, true), 2);
    assert_eq!(event_flags(0x2E, false), 1);
    let extended: Vec<u16> = (0..=255u16).filter(|vk| is_extended_key(*vk)).collect();
    assert_eq!(
        extended,
        vec![
            0x21, 0x22, 0x23, 0x24, 0x25, 0x26, 0x27, 0x28, 0x2D, 0x2E, 0x5B, 0x5C, 0x5D, 0x90,
            0xA3, 0xA5
        ]
    );
    assert!(injection_result(1).is_ok());
    assert_eq!(injection_result(0).unwrap_err(), "SendInput 仅发送了 0 个事件");
    assert_eq!(post_failure(true), "投递 KeyUp 失败");
    assert_eq!(post_failure(false), "投递 KeyDown 失败");
}

#[test]
fn a_lost_window_is_unbound() {
    let mut binding = WindowBinding::new();
    assert_eq!(input_target(&binding.snapshot()), InputTarget::Foreground);
    let snapshot = binding.bind_candidate(capture(3)).unwrap();
    assert_eq!(input_target(&binding.snapshot()), InputTarget::Window(3));
    assert!(!unbind_after_failure(&mut binding, &snapshot, true));
    assert!(unbind_after_failure(&mut binding, &snapshot, false));
    assert!(binding.snapshot().is_none());
    assert!(!unbind_after_failure(&mut binding, &snapshot, false));
}
