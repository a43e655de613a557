use autokey_rust::commands::{AppCommand, UiAction};
use autokey_rust::config::Config;
use autokey_rust::gui::{
    apply_row_edits, apply_ui_action, autostart_hide_at, bound_window_label, click_key_button,
    close_action, header_command, hides_now, icon_update_due, invert_selection, key_table_summary,
    opening_height_bits, persist_window_size, repaint_interval_ms, select_all, timing_level_label,
    window_title, AltFallback, CaptureRequest, CloseAction, IconAttempt, RowEdit,
};
use autokey_rust::logging::{
    log_directory, log_error, log_event, log_path, startup_message, LogStamp, StartupFacts,
};
use autokey_rust::store::AppPreferences;
use autokey_rust::taskbar::{
    icon_resource, overlay_description, relaunch_icon_path, replace_icon, to_screen_bytes,
    update_done,
};
use autokey_rust::tray::{
    autostart_message, autostart_record, icon_refresh, menu_action, notify_id_candidates,
    shown_last, tooltip, IconRefresh, MenuAction, ShownState,
};

#[test]
fn captured_keys_are_set() {
    let mut config = Config::default();
    let mut capturing = None;
    assert_eq!(click_key_button(&mut capturing, 2), CaptureRequest::Begin);
    assert_eq!(capturing, Some(2));
    apply_ui_action(&mut config, &mut capturing, UiAction::CapturedKey(0x41));
    assert_eq!(capturing, None);
    assert_eq!(config.keys[2].vk_code, 0x41);
    assert_eq!(config.keys[2].key_name, "A键");
    let before = config.clone();
    apply_ui_action(&mut config, &mut capturing, UiAction::CapturedKey(0x42));
    assert_eq!(config, before);
    capturing = Some(2);
    apply_ui_action(&mut config, &mut capturing, UiAction::CapturedKey(0));
    assert_eq!(config.keys[2].vk_code, 0);
    assert_eq!(config.keys[2].key_name, "未设置");
    capturing = Some(50);
    apply_ui_action(&mut config, &mut capturing, UiAction::CapturedKey(0x42));
    assert_eq!(capturing, None);
    assert_eq!(click_key_button(&mut capturing, 1), CaptureRequest::Begin);
    assert_eq!(click_key_button(&mut capturing, 3), CaptureRequest::Begin);
    assert_eq!(click_key_button(&mut capturing, 3), CaptureRequest::Cancel);
    assert_eq!(capturing, None);
}

#[test]
fn rows_are_edited() {
    let mut config = Config::default();
    let none = RowEdit {
        base_delay: None,
        random_range: None,
        enabled: None,
    };
    let edits = vec![
        none,
        RowEdit {
            base_delay: Some(77),
            random_range: Some(8),
            enabled: Some(false),
        },
    ];
    apply_row_edits(&mut config, &edits);
    assert_eq!(config.keys[0], Config::default().keys[0]);
    assert_eq!(config.keys[1].base_delay, 77);
    assert_eq!(config.keys[1].random_range, 8);
    assert!(!config.keys[1].enabled);
    assert_eq!(config.keys[2], Config::default().keys[2]);
    assert_eq!(key_table_summary(&config), "12 个按键槽 / 3 个已启用");
    let before = config.clone();
    invert_selection(&mut config);
    assert_eq!(key_table_summary(&config), "12 个按键槽 / 9 个已启用");
    invert_selection(&mut config);
    assert_eq!(config, before);
    select_all(&mut config);
    assert_eq!(key_table_summary(&config), "12 个按键槽 / 12 个已启用");
    assert_eq!(config.keys[1].base_delay, 77);
}

#[test]
fn alt_in_the_window_switches_alone() {
    let mut alt = AltFallback::new();
    assert!(!alt.step(true, false, None, 0));
    assert!(alt.step(false, false, None, 10));
    assert!(!alt.step(false, false, None, 20));
    assert!(!alt.step(true, false, None, 30));
    assert!(!alt.step(true, true, None, 40));
    assert!(!alt.step(true, false, None, 50));
    assert!(!alt.step(false, false, None, 60));
    assert!(!alt.step(true, true, None, 70));
    assert!(!alt.step(false, false, None, 80));
    assert!(!alt.step(true, false, Some(100), 200));
    assert!(!alt.step(false, false, Some(100), 400));
    assert!(!alt.step(true, false, Some(100), 401));
    assert!(alt.step(false, false, Some(100), 401));
}

#[test]
fn taskbar_updates_are_tried_again() {
    let shown = Some(ShownState::new(true, "a"));
    assert!(!icon_update_due(&shown, &None, true, "a", 0));
    assert!(icon_update_due(&shown, &None, false, "a", 0));
    let attempt = Some(IconAttempt {
        state: ShownState::new(false, "a"),
        at_ms: 1000,
    });
    assert!(!icon_update_due(&shown, &attempt, false, "a", 1499));
    assert!(icon_update_due(&shown, &attempt, false, "a", 1500));
    assert!(icon_update_due(&shown, &attempt, false, "b", 1001));
    assert!(!icon_update_due(&shown, &attempt, true, "a", 9000));
}

#[test]
fn the_window_closes_to_the_tray() {
    assert_eq!(close_action(true, false), CloseAction::HideToTray);
    assert_eq!(close_action(true, true), CloseAction::Exit);
    assert_eq!(close_action(false, false), CloseAction::Exit);
    assert_eq!(header_command(true), AppCommand::Stop);
    assert_eq!(header_command(false), AppCommand::Start);
    assert_eq!(repaint_interval_ms(true, false), 200);
    assert_eq!(repaint_interval_ms(false, true), 200);
    assert_eq!(repaint_interval_ms(false, false), 750);
    assert_eq!(autostart_hide_at(true, true, 1000), Some(1750));
    assert_eq!(autostart_hide_at(true, false, 1000), None);
    assert_eq!(autostart_hide_at(false, true, 1000), None);
    let mut hide_at = Some(1750);
    assert!(!hides_now(&mut hide_at, 1749));
    assert!(hides_now(&mut hide_at, 1750));
    assert!(!hides_now(&mut hide_at, 1751));
}

#[test]
fn window_texts() {
    assert_eq!(window_title("默认"), "调度器 - 默认");
    assert_eq!(bound_window_label("记事本", 1), "已绑定: 记事本");
    assert_eq!(bound_window_label("", 0xAB), "已绑定: 0xab");
    assert_eq!(timing_level_label(0), "0 - 基础");
    assert_eq!(timing_level_label(1), "1 - 标准");
    assert_eq!(timing_level_label(7), "2 - 拟人");
}

#[test]
fn window_size_is_kept() {
    let mut preferences = AppPreferences::default();
    let (left, top) = ((-8.0f32).to_bits(), 0.0f32.to_bits());
    let nowhere = f32::NEG_INFINITY.to_bits();
    let (width, height) = (900.0f32.to_bits(), 700.0f32.to_bits());
    assert!(!persist_window_size(&mut preferences, nowhere, top, width, height));
    assert!(!persist_window_size(&mut preferences, left, f32::NAN.to_bits(), width, height));
    assert!(!persist_window_size(&mut preferences, left, top, f32::NAN.to_bits(), 700.0f32.to_bits()));
    assert!(!persist_window_size(&mut preferences, left, top, 900.0f32.to_bits(), 0.0f32.to_bits()));
    assert!(!persist_window_size(&mut preferences, left, top, (-1.0f32).to_bits(), 700.0f32.to_bits()));
    assert_eq!(preferences, AppPreferences::default());
    assert!(persist_window_size(&mut preferences, left, top, 900.0f32.to_bits(), 9000.0f32.to_bits()));
    assert_eq!(f32::from_bits(preferences.window_width_bits), 900.0);
    assert_eq!(f32::from_bits(preferences.window_height_bits), 4320.0);
    for height in [600.0f32, 700.0, 701.0, 4320.0, f32::INFINITY, f32::NAN, -5.0, 0.0] {
        preferences.window_height_bits = height.to_bits();
        assert_eq!(
            f32::from_bits(opening_height_bits(&preferences)),
            height.min(700.0)
        );
    }
}

#[test]
fn tray_tells_state_and_profile() {
    assert_eq!(tooltip(true, "a"), "调度器 - a - 运行中");
    assert_eq!(tooltip(false, "默认"), "调度器 - 默认 - 已停止");
    assert!(!shown_last(&None, true, "a"));
    assert!(shown_last(&Some(ShownState::new(true, "a")), true, "a"));
    assert!(!shown_last(&Some(ShownState::new(true, "a")), true, "b"));
    assert_eq!(icon_refresh(true, true, Some(1000), 2999), IconRefresh::Skip);
    assert_eq!(icon_refresh(true, true, Some(1000), 3000), IconRefresh::ShowAgain);
    assert_eq!(icon_refresh(true, false, Some(1000), 3000), IconRefresh::Draw);
    assert_eq!(icon_refresh(false, true, Some(1000), 1001), IconRefresh::Draw);
    assert_eq!(icon_refresh(true, true, None, 0), IconRefresh::ShowAgain);
    let all: Vec<u32> = (1..=16).collect();
    assert_eq!(notify_id_candidates(None), all);
    let cached = notify_id_candidates(Some(3));
    assert_eq!(cached[..5], [3, 1, 2, 4, 5]);
    assert_eq!(cached.len(), 16);
    assert_eq!(notify_id_candidates(Some(40)).len(), 17);
    assert_eq!(menu_action("exit"), MenuAction::Exit);
    assert_eq!(menu_action("show"), MenuAction::Show);
    assert_eq!(menu_action("autostart"), MenuAction::ToggleAutostart);
    assert_eq!(menu_action("?"), MenuAction::Nothing);
}

#[test]
fn tray_reports_starting_at_login() {
    let mut status = autokey_rust::autostart::unsupported_status();
    assert_eq!(autostart_message(&Ok(status.clone())), "开机自启已关闭并验证");
    status.enabled = true;
    status.backend = Some(autokey_rust::autostart::AutostartBackend::StartupShortcut);
    status.link_path = "L".to_owned();
    assert_eq!(
        autostart_message(&Ok(status.clone())),
        format!("开机自启已启用 ({:?}): L", status.backend)
    );
    assert_eq!(
        autostart_message(&Err("拒绝".to_owned())),
        "开机自启设置失败: 拒绝"
    );
    assert_eq!(
        autostart_record(&status),
        "enabled=true backend=Some(StartupShortcut) link=L target= args=--autostart working_dir="
    );
}

#[test]
fn taskbar_pictures_are_weighed() {
    let rgba = vec![255, 128, 0, 255, 255, 128, 10, 128, 9, 9, 9, 0];
    assert_eq!(
        to_screen_bytes(&rgba),
        vec![0, 128, 255, 255, 5, 64, 128, 128, 0, 0, 0, 0]
    );
    assert_eq!(overlay_description("config12"), "AutoKeyRust 12");
    assert_eq!(
        relaunch_icon_path("D:\\d", true, "默认"),
        "D:\\d\\AutoKey-Rust\\taskbar-running-0.ico"
    );
    assert_eq!(
        relaunch_icon_path("D:\\d", false, "ab"),
        "D:\\d\\AutoKey-Rust\\taskbar-stopped-AB.ico"
    );
    assert_eq!(icon_resource("x.ico"), "x.ico,0");
    let mut slot = None;
    assert_eq!(replace_icon(&mut slot, 4), None);
    assert_eq!(replace_icon(&mut slot, 5), Some(4));
    assert_eq!(slot, Some(5));
    assert!(update_done(false, false, false, false, false));
    assert!(update_done(true, true, true, true, true));
    assert!(!update_done(true, true, true, false, true));
    assert!(!update_done(true, false, true, true, true));
}

#[test]
fn log_lines_tell_when_and_who() {
    let stamp = LogStamp {
        time: "T".to_owned(),
        process_id: 42,
    };
    let event = log_event("startup", "ready", &stamp);
    assert_eq!(event.file_name, "app.log");
    assert_eq!(event.line, "[T] pid=42 startup: ready\n");
    let error = log_error("panic", "bad", &stamp);
    assert_eq!(error.file_name, "error.log");
    assert_eq!(error.line, "[T] pid=42 panic: bad\n");
    assert_eq!(log_directory("D:\\d"), "D:\\d\\AutoKey-Rust\\logs");
    assert_eq!(log_path("D:\\d", &error), "D:\\d\\AutoKey-Rust\\logs\\error.log");
    let facts = StartupFacts {
        version: "1.0".to_owned(),
        commit: "abc".to_owned(),
        started_by_autostart: true,
        executable: "x.exe".to_owned(),
        arguments: "--autostart".to_owned(),
    };
    assert_eq!(
        startup_message(&facts),
        "version=1.0 commit=abc autostart=true exe=x.exe args=--autostart"
    );
}
