use autokey_rust::autostart::{
    desired_backend, is_earlier_program, is_enabled, obsolete_run_values,
    parse_scheduled_task, parse_shortcut_info, ps_quote, read_shortcut_script, read_task_script,
    remove_task_script, removes_shortcut, runs_elevated, same_path, scheduled_task_name,
    script_output, script_result, script_wait, set_enabled, shortcut_target_from_command,
    startup_folder_disabled, startup_link_path_from_appdata, status, switch_plan,
    unsupported_status, write_shortcut_script, write_task_script, AutostartBackend,
    AutostartObservation, AutostartStatus, ScheduledTaskInfo, ScriptWait, ShortcutInfo,
    StartupEnvironment, StartupManager, StatusCache, SwitchPlan, STARTUP_ARGUMENT,
    STARTUP_LINK_NAME,
};

fn manager() -> StartupManager {
    StartupManager {
        link_path: r"C:\Startup\AutoKey-Rust.lnk".to_owned(),
        target_path: r"C:\Apps\AutoKeyRust.exe".to_owned(),
        arguments: STARTUP_ARGUMENT.to_owned(),
        working_dir: r"C:\Apps".to_owned(),
        task_name: "AutoKey-Rust Startup - test".to_owned(),
        resolved_target: r"C:\Apps\AutoKeyRust.exe".to_owned(),
        resolved_working_dir: r"C:\Apps".to_owned(),
    }
}

fn seen(
    shortcut: Option<ShortcutInfo>,
    disabled_by_windows: bool,
    task: Option<ScheduledTaskInfo>,
) -> AutostartObservation {
    AutostartObservation {
        supported: true,
        shortcut,
        disabled_by_windows,
        task,
    }
}

fn matching_shortcut(manager: &StartupManager) -> ShortcutInfo {
    ShortcutInfo {
        target: manager.target_path.clone(),
        arguments: STARTUP_ARGUMENT.to_owned(),
        working_dir: manager.working_dir.clone(),
    }
}

fn matching_task(manager: &StartupManager) -> ScheduledTaskInfo {
    ScheduledTaskInfo {
        target: manager.target_path.clone(),
        arguments: STARTUP_ARGUMENT.to_owned(),
        working_dir: manager.working_dir.clone(),
        run_level: "Highest".to_owned(),
        state: "Ready".to_owned(),
    }
}

#[test]
fn startup_link_uses_user_startup_folder() {
    let path = startup_link_path_from_appdata(r"C:\Users\me\AppData\Roaming");
    assert_eq!(path.rsplit('\\').next().unwrap(), STARTUP_LINK_NAME);
    assert!(path.contains("Start Menu"));
    assert!(path.contains("Startup"));
}

#[test]
fn status_requires_target_arguments_and_working_directory() {
    let manager = manager();
    let matching = matching_shortcut(&manager);
    assert!(
        manager
            .status_from_info(&seen(Some(matching_shortcut(&manager)), false, None))
            .enabled
    );
    assert!(
        !manager
            .status_from_info(&seen(Some(matching_shortcut(&manager)), true, None))
            .enabled
    );
    let mut wrong_args = matching;
    wrong_args.arguments.clear();
    assert!(
        !manager
            .status_from_info(&seen(Some(wrong_args), false, None))
            .enabled
    );
}

#[test]
fn elevation_selects_scheduled_task_backend() {
    assert_eq!(desired_backend(false), AutostartBackend::StartupShortcut);
    assert_eq!(
        desired_backend(true),
        AutostartBackend::ElevatedScheduledTask
    );
}

#[test]
fn matching_highest_task_is_enabled() {
    let manager = manager();
    let task = matching_task(&manager);
    let status = manager.status_from_info(&seen(None, false, Some(task)));
    assert!(status.enabled);
    assert_eq!(
        status.backend,
        Some(AutostartBackend::ElevatedScheduledTask)
    );
}

#[test]
fn tasks_must_have_the_highest_rights_and_be_on() {
    let manager = manager();
    let mut limited = matching_task(&manager);
    limited.run_level = "Limited".to_owned();
    assert!(!status(&manager, &seen(None, false, Some(limited))).enabled);
    let mut disabled = matching_task(&manager);
    disabled.state = "disabled".to_owned();
    assert!(!status(&manager, &seen(None, false, Some(disabled))).enabled);
    let mut elsewhere = matching_task(&manager);
    elsewhere.working_dir = r"D:\Apps".to_owned();
    let both = seen(Some(matching_shortcut(&manager)), false, Some(elsewhere));
    assert_eq!(status(&manager, &both).backend, Some(AutostartBackend::StartupShortcut));
    let mut upper = matching_shortcut(&manager);
    upper.target = r"c:\APPS\autokeyrust.EXE".to_owned();
    upper.arguments = "  --AUTOSTART ".to_owned();
    assert!(status(&manager, &seen(Some(upper), false, None)).enabled);
    assert!(same_path("A", "a"));
    assert!(!same_path("A", "b"));
}

#[test]
fn link_path_is_complete() {
    assert_eq!(
        startup_link_path_from_appdata(r"C:\Users\me\AppData\Roaming"),
        r"C:\Users\me\AppData\Roaming\Microsoft\Windows\Start Menu\Programs\Startup\AutoKey-Rust.lnk"
    );
}

#[test]
fn switching_does_only_what_is_needed() {
    let shortcut = Some(AutostartBackend::StartupShortcut);
    let task = Some(AutostartBackend::ElevatedScheduledTask);
    assert_eq!(switch_plan(false, task, true), SwitchPlan::RemoveAll);
    assert_eq!(switch_plan(true, None, true), SwitchPlan::WriteTask);
    assert_eq!(switch_plan(true, None, false), SwitchPlan::WriteShortcut);
    assert_eq!(switch_plan(true, shortcut, false), SwitchPlan::Keep);
    assert_eq!(switch_plan(true, shortcut, true), SwitchPlan::WriteTask);
    assert_eq!(switch_plan(true, task, false), SwitchPlan::Keep);
    assert_eq!(switch_plan(true, task, true), SwitchPlan::Keep);
    assert!(runs_elevated(true, ""));
    assert!(runs_elevated(false, "~ RUNASADMIN HIGHDPIAWARE"));
    assert!(!runs_elevated(false, "~ HIGHDPIAWARE"));
}

fn on() -> AutostartStatus {
    let manager = manager();
    let seen = seen(Some(matching_shortcut(&manager)), false, None);
    status(&manager, &seen)
}

#[test]
fn answers_are_good_for_half_a_minute() {
    let mut cache = StatusCache::new();
    assert!(is_enabled(&mut cache, 1000, || (Some(on()), 2000)));
    assert!(is_enabled(&mut cache, 31_999, || panic!("asked too early")));
    assert!(!is_enabled(&mut cache, 32_000, || (None, 32_500)));
    assert!(!is_enabled(&mut cache, 33_000, || (Some(on()), 33_000)));
    assert_eq!(set_enabled(&mut cache, true, on(), 40_000).unwrap(), on());
    assert!(is_enabled(&mut cache, 50_000, || panic!("asked too early")));
    let error = set_enabled(&mut cache, false, on(), 60_000).unwrap_err();
    assert_eq!(
        error,
        r"开机启动快捷方式写入后验证失败: link=C:\Startup\AutoKey-Rust.lnk target=C:\Apps\AutoKeyRust.exe args=--autostart working_dir=C:\Apps"
    );
    assert!(is_enabled(&mut cache, 69_999, || (None, 69_999)));
    assert!(!unsupported_status().supported);
    assert_eq!(unsupported_status().arguments, "--autostart");
}

#[test]
fn only_own_shortcuts_are_removed() {
    let manager = manager();
    assert!(!removes_shortcut(&None, &manager.resolved_target));
    let own = Some(matching_shortcut(&manager));
    assert!(removes_shortcut(&own, &manager.resolved_target));
    assert!(!removes_shortcut(&own, r"C:\Other.exe"));
}

#[test]
fn task_names_hold_the_user() {
    let domain = Some("DOM AIN".to_owned());
    let name = Some("jo.e-1".to_owned());
    assert_eq!(
        scheduled_task_name(&domain, &name),
        "AutoKey-Rust Startup - DOMAIN_jo.e-1"
    );
    assert_eq!(scheduled_task_name(&None, &name), "AutoKey-Rust Startup - jo.e-1");
    assert_eq!(scheduled_task_name(&domain, &None), "AutoKey-Rust Startup - DOMAIN");
    assert_eq!(scheduled_task_name(&None, &None), "AutoKey-Rust Startup");
    assert_eq!(scheduled_task_name(&None, &Some("用户".to_owned())), "AutoKey-Rust Startup");
    let long = Some("u".repeat(100));
    assert_eq!(
        scheduled_task_name(&None, &long),
        format!("AutoKey-Rust Startup - {}", "u".repeat(80))
    );
}

#[test]
fn the_environment_must_be_known() {
    let mut env = StartupEnvironment {
        app_data_root: None,
        app_data: None,
        executable: None,
        user_domain: None,
        user_name: None,
        resolved_target: "t".to_owned(),
        resolved_working_dir: "w".to_owned(),
    };
    assert_eq!(StartupManager::current(&env).err().unwrap(), "APPDATA 未设置");
    env.app_data = Some("D:".to_owned());
    assert_eq!(StartupManager::current(&env).err().unwrap(), "无法确定程序路径");
    env.executable = Some(r"C:\Apps\AutoKeyRust.exe".to_owned());
    let found = StartupManager::current(&env).unwrap();
    assert_eq!(found.link_path, startup_link_path_from_appdata("D:"));
    assert_eq!(found.working_dir, r"C:\Apps");
    assert_eq!(found.arguments, "--autostart");
    assert_eq!(found.resolved_target, "t");
    env.app_data_root = Some("E:".to_owned());
    let root = StartupManager::current(&env).unwrap();
    assert_eq!(root.link_path, startup_link_path_from_appdata("E:"));
}

#[test]
fn texts_are_quoted_for_scripts() {
    assert_eq!(ps_quote("a"), "'a'");
    assert_eq!(ps_quote("it's"), "'it''s'");
    assert_eq!(ps_quote("'; rm"), "'''; rm'");
    assert_eq!(ps_quote(""), "''");
    assert_eq!(
        read_shortcut_script(r"C:\a.lnk"),
        r"$s=New-Object -ComObject WScript.Shell; $l=$s.CreateShortcut('C:\a.lnk'); Write-Output $l.TargetPath; Write-Output $l.Arguments; Write-Output $l.WorkingDirectory"
    );
    assert_eq!(
        write_shortcut_script(&manager()),
        r"$s=New-Object -ComObject WScript.Shell; $l=$s.CreateShortcut('C:\Startup\AutoKey-Rust.lnk'); $l.TargetPath='C:\Apps\AutoKeyRust.exe'; $l.Arguments='--autostart'; $l.WorkingDirectory='C:\Apps'; $l.Save()"
    );
    assert_eq!(
        read_task_script("T"),
        r"$t=Get-ScheduledTask -TaskPath '\' -TaskName 'T' -ErrorAction SilentlyContinue; if($null -eq $t){exit 0}; $a=$t.Actions | Select-Object -First 1; Write-Output $a.Execute; Write-Output $a.Arguments; Write-Output $a.WorkingDirectory; Write-Output $t.Principal.RunLevel; Write-Output $t.State"
    );
    let write = write_task_script(&manager());
    assert!(write.starts_with("$identity=[System.Security.Principal.WindowsIdentity]::GetCurrent().Name; $action=New-ScheduledTaskAction -Execute 'C:\\Apps\\AutoKeyRust.exe' -Argument '--autostart' -WorkingDirectory 'C:\\Apps'; "));
    assert!(write.ends_with(" -TaskName 'AutoKey-Rust Startup - test' -Action $action -Trigger $trigger -Principal $principal -Description 'AutoKey-Rust per-user startup' -Force | Out-Null"));
    assert_eq!(
        remove_task_script("T"),
        r"Unregister-ScheduledTask -TaskPath '\' -TaskName 'T' -Confirm:$false -ErrorAction Stop"
    );
}

#[test]
fn replies_are_read_line_by_line() {
    assert!(parse_shortcut_info("\r\n--autostart\r\n").is_none());
    assert!(parse_shortcut_info("").is_none());
    let info = parse_shortcut_info(" C:\\a.exe \r\n--autostart\r\nC:\\\r\n").unwrap();
    assert_eq!(info.target, "C:\\a.exe");
    assert_eq!(info.arguments, "--autostart");
    assert_eq!(info.working_dir, "C:\\");
    assert_eq!(parse_shortcut_info("x").unwrap().working_dir, "");
    let task = parse_scheduled_task("a\nb\nc\nHighest\nReady\n").unwrap();
    assert_eq!(task.run_level, "Highest");
    assert_eq!(task.state, "Ready");
    assert!(parse_scheduled_task("\n").is_none());
}

#[test]
fn scripts_are_waited_for() {
    assert_eq!(script_wait(true, 90_000), ScriptWait::Finished);
    assert_eq!(script_wait(false, 29_999), ScriptWait::KeepWaiting);
    assert_eq!(script_wait(false, 30_000), ScriptWait::TimedOut);
    assert_eq!(script_result(true, "out".to_owned(), "err").unwrap(), "out");
    let bytes = |text: &str| text.as_bytes().to_vec();
    assert_eq!(script_output(true, &bytes("键"), &bytes("err")).unwrap(), "键");
    assert_eq!(script_output(true, &vec![0x61, 0xFF], &bytes("")).unwrap(), "a\u{FFFD}");
    assert_eq!(
        script_output(false, &bytes("out"), &bytes(" bad\n")).unwrap_err(),
        "PowerShell 快捷方式操作失败: bad"
    );
    assert_eq!(
        script_result(false, "out".to_owned(), " bad\n").unwrap_err(),
        "PowerShell 快捷方式操作失败: bad"
    );
    assert_eq!(
        script_result(false, String::new(), " \n").unwrap_err(),
        "PowerShell 快捷方式操作失败: 未知错误"
    );
}

#[test]
fn the_registry_is_read() {
    assert!(startup_folder_disabled(&Some(vec![3, 0, 0])));
    assert!(!startup_folder_disabled(&Some(vec![2])));
    assert!(!startup_folder_disabled(&Some(Vec::new())));
    assert!(!startup_folder_disabled(&None));
    assert_eq!(
        shortcut_target_from_command(" \"C:\\My Apps\\a.exe\" -x").unwrap(),
        "C:\\My Apps\\a.exe"
    );
    assert_eq!(shortcut_target_from_command("\"C:\\a.exe"), None);
    assert_eq!(shortcut_target_from_command("C:\\a.exe -x").unwrap(), "C:\\a.exe");
    assert_eq!(shortcut_target_from_command("  "), None);
    assert!(is_earlier_program("\"C:\\x y\\AutoKey.EXE\""));
    assert!(is_earlier_program("C:/x/keyscheduler.exe --tray"));
    assert!(is_earlier_program("AutoKey.exe"));
    assert!(is_earlier_program("C:\\x\\AutoKey.exe\\"));
    assert!(!is_earlier_program("C:\\AutoKey.exe\\other.exe"));
    assert!(!is_earlier_program(""));
    assert!(!is_earlier_program("\\\\server\\AutoKey.exe"));
    assert!(is_earlier_program("\\\\server\\share\\AutoKey.exe"));
    assert!(is_earlier_program("C:\\x\\AutoKey.exe\\."));
    assert_eq!(obsolete_run_values(false).len(), 2);
    assert_eq!(
        obsolete_run_values(true),
        vec!["AutoKeyRust", "{A1B2C3D4-E5F6-7890-ABCD-EF1234567890}", "AutoKey"]
    );
}
