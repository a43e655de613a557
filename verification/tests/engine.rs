use autokey_rust::commands::AppCommand;
use autokey_rust::config::{Config, KeyConfig};
use autokey_rust::engine::{
    calculate_delay, combined_range, counter_nanoseconds, idle_decision, plan_run, plan_wait,
    reached_limit, remaining_delay, supervise, wait_result, CommandEvent, Control, EngineStatus,
    HeldKey, IdleDecision, KeyEnd, KeyPhase, KeyRun, KeyRunEvent, RunKey, SequenceEvent, SequencePhase,
    SequenceRun, SupervisorEvent, WaitPlan,
};
use autokey_rust::humanizer::{reset, set_timing_variation_level, TimingState};
use autokey_rust::input::InputTarget;

#[test]
fn loop_limit_is_inclusive() {
    assert!(!reached_limit(3, 2));
    assert!(reached_limit(3, 3));
    assert!(!reached_limit(-1, u32::MAX));
}

#[test]
fn combines_per_key_and_global_random_ranges() {
    let mut timing = TimingState::new();
    reset(&mut timing);
    set_timing_variation_level(&mut timing, 1);
    let config = Config {
        global_random_delay: 200,
        ..Config::default()
    };
    let key = RunKey {
        index: 0,
        config: KeyConfig {
            base_delay: 1000,
            random_range: 100,
            ..KeyConfig::default()
        },
    };
    for round in 0..100 {
        let jitter = (round - 50) * 9;
        let delay = calculate_delay(
            &mut timing,
            &config,
            &key,
            jitter,
            |delay| (f64::from(delay) * fastrand::f64() * 2.0) as i64,
            |delay| delay as i64,
        );
        assert!((700..=1300).contains(&delay));
    }
    assert_eq!(combined_range(&config, &key), 300);
    let wide = Config {
        global_random_delay: u32::MAX,
        ..Config::default()
    };
    assert_eq!(combined_range(&wide, &key), 3_600_000);
}

#[test]
fn hi_res_timer_is_monotonic() {
    let start = std::time::Instant::now();
    let t1 = counter_nanoseconds(start.elapsed().as_nanos() as i64, 1_000_000_000);
    let t2 = counter_nanoseconds(start.elapsed().as_nanos() as i64, 1_000_000_000);
    assert!(t2 >= t1, "QPC timer should be monotonic");
}

#[test]
fn counter_ticks_become_nanoseconds() {
    assert_eq!(counter_nanoseconds(0, 10_000_000), 0);
    assert_eq!(counter_nanoseconds(1, 10_000_000), 100);
    assert_eq!(counter_nanoseconds(10_000_000, 10_000_000), 1_000_000_000);
    assert_eq!(counter_nanoseconds(7, 3), 2_333_333_333);
    let wrapped = (i64::MAX as u128 * 1_000_000_000) as u64;
    assert_eq!(counter_nanoseconds(i64::MAX, 1), wrapped);
}

#[test]
fn waits_end_on_time_or_when_stopped() {
    assert_eq!(plan_wait(5, 0), None);
    let plan = plan_wait(1_000, 2).unwrap();
    assert_eq!(
        plan,
        WaitPlan {
            deadline_ns: 2_001_000,
            sleep_us: 1_500
        }
    );
    assert_eq!(wait_result(false, 2_000_999, &plan), None);
    assert_eq!(wait_result(false, 2_001_000, &plan), Some(false));
    assert_eq!(wait_result(true, 0, &plan), Some(true));
    assert_eq!(plan_wait(u64::MAX, 1).unwrap().deadline_ns, u64::MAX);
}

#[test]
fn interval_counts_from_the_press() {
    assert_eq!(remaining_delay(1000, 45), 955);
    assert_eq!(remaining_delay(1000, 1000), 0);
    assert_eq!(remaining_delay(1000, u64::MAX), 0);
    assert_eq!(remaining_delay(1000, 0), 1000);
}

#[test]
fn commands_without_a_run() {
    assert_eq!(idle_decision(AppCommand::Start, false), IdleDecision::Run);
    assert_eq!(idle_decision(AppCommand::Start, true), IdleDecision::Run);
    assert_eq!(idle_decision(AppCommand::ToggleRunning, false), IdleDecision::Run);
    assert_eq!(idle_decision(AppCommand::ToggleRunning, true), IdleDecision::StayStopped);
    assert_eq!(idle_decision(AppCommand::Stop, true), IdleDecision::StayStopped);
    assert_eq!(idle_decision(AppCommand::Exit, false), IdleDecision::Quit);
}

fn runnable() -> Config {
    let mut config = Config::default();
    for (row, key) in config.keys.iter_mut().enumerate() {
        key.enabled = row == 1 || row == 4;
        key.vk_code = 0x41 + row as u16;
    }
    config
}

#[test]
fn a_run_takes_the_enabled_keys_in_order() {
    let mut config = runnable();
    let plan = plan_run(&config).unwrap();
    let rows: Vec<usize> = plan.keys.iter().map(|key| key.index).collect();
    assert_eq!(rows, vec![1, 4]);
    assert_eq!(plan.keys[1].config, config.keys[4]);
    assert_eq!(plan.status, "运行中，共 2 个按键");
    config.keys[1].base_delay = 5;
    assert_eq!(plan.keys[0].config.base_delay, 1000);
    assert_eq!(plan.config.keys[1].base_delay, 1000);
}

#[test]
fn a_run_is_refused_with_a_reason() {
    let mut config = runnable();
    config.max_loops = 0;
    assert_eq!(plan_run(&config).err().unwrap(), "循环次数为 0，没有执行任务");
    config.keys[4].vk_code = 0;
    assert_eq!(plan_run(&config).err().unwrap(), "第 5 行已启用，但尚未设置按键");
    assert_eq!(
        plan_run(&Config::default()).err().unwrap(),
        "请至少设置并启用一个按键"
    );
}

#[test]
fn status_follows_the_run() {
    let mut status = EngineStatus::new("就绪".to_owned());
    assert!(!status.running);
    assert_eq!(status.key_running, vec![false; 12]);
    status.set_started("运行中，共 2 个按键");
    status.set_key_running(3, true);
    status.set_key_running(99, true);
    assert!(status.key_running[3]);
    assert_eq!(status.key_running.len(), 12);
    assert_eq!(status.after_wait(CommandEvent::Timeout), Control::Continue);
    assert_eq!(
        status.after_wait(CommandEvent::Command(AppCommand::Start)),
        Control::Continue
    );
    assert!(status.running);
    assert_eq!(status.after_wait(CommandEvent::Disconnected), Control::Exit);
    assert_eq!(
        status.after_wait(CommandEvent::Command(AppCommand::Exit)),
        Control::Exit
    );
    assert_eq!(
        status.after_wait(CommandEvent::Command(AppCommand::ToggleRunning)),
        Control::Stop
    );
    assert!(!status.running);
    assert_eq!(status.status, "已停止");
    status.finish_run(Control::Stop);
    assert_eq!(status.status, "已停止");
    assert_eq!(status.key_running, vec![false; 12]);

    status.set_started("运行中，共 1 个按键");
    status.finish_run(Control::Stop);
    assert_eq!(status.status, "已停止");
    status.set_started("运行中，共 1 个按键");
    status.set_send_failed("A键", "窗口已失效");
    status.finish_run(Control::Stop);
    assert_eq!(status.status, "按键 [A键] 发送失败: 窗口已失效");
    status.finish_run(Control::Continue);
    assert_eq!(status.status, "已完成");
    status.set_started("运行中，共 1 个按键");
    status.finish_run(Control::Exit);
    assert_eq!(status.status, "运行中，共 1 个按键");
    status.set_stopped("调度线程异常退出");
    assert_eq!(status.status, "调度线程异常退出");
    status.key_running = vec![true; 20];
    status.set_key_running(0, false);
    assert_eq!(status.key_running.len(), 12);
    assert!(!status.key_running[0] && status.key_running[11]);
}

fn waited(stopped: bool) -> KeyRunEvent {
    KeyRunEvent::Waited { stopped }
}

const KEY: HeldKey = HeldKey {
    target: InputTarget::Window(77),
    vk_code: 0x41,
};

fn pressed(ok: bool) -> KeyRunEvent {
    KeyRunEvent::Pressed { key: KEY, ok }
}

fn released(ok: bool) -> KeyRunEvent {
    KeyRunEvent::Released { ok }
}

#[test]
fn a_key_is_pressed_as_often_as_asked() {
    let mut run = KeyRun::start(3);
    let mut presses = 0;
    while !matches!(run.phase, KeyPhase::Ended(_)) {
        match run.phase {
            KeyPhase::Pressing => {
                presses += 1;
                run.step(pressed(true));
            }
            KeyPhase::Releasing { .. } => run.step(released(true)),
            _ => run.step(waited(false)),
        }
    }
    assert_eq!(presses, 3);
    assert_eq!(run.completed, 3);
    assert_eq!(run.phase, KeyPhase::Ended(KeyEnd::Completed));
}

#[test]
fn a_stop_while_held_releases_the_key() {
    let mut run = KeyRun::start(-1);
    run.step(waited(false));
    run.step(pressed(true));
    assert_eq!(run.phase, KeyPhase::Holding { key: KEY });
    run.step(waited(true));
    assert_eq!(run.phase, KeyPhase::Releasing { key: KEY, stopped: true });
    run.step(released(true));
    assert_eq!(run.phase, KeyPhase::Ended(KeyEnd::Stopped));
}

#[test]
fn a_release_goes_where_the_press_went() {
    let front = HeldKey::press(&None, 0x42);
    assert_eq!(front.target, InputTarget::Foreground);
    assert_eq!(front.release(), (InputTarget::Foreground, 0x42));
    assert_eq!(KEY.release(), (InputTarget::Window(77), 0x41));

    let mut run = KeyRun::start(-1);
    let mut released_keys = Vec::new();
    for key in [KEY, front, KEY] {
        run.step(waited(false));
        run.step(KeyRunEvent::Pressed { key, ok: true });
        run.step(waited(false));
        if let KeyPhase::Releasing { key, .. } = run.phase {
            released_keys.push(key.release());
        }
        run.step(released(true));
        run.step(waited(false));
    }
    assert_eq!(released_keys, vec![KEY.release(), front.release(), KEY.release()]);
}

#[test]
fn a_stop_before_the_press_sends_nothing() {
    let mut run = KeyRun::start(3);
    run.step(waited(true));
    for event in [pressed(true), released(true), waited(false)] {
        run.step(event);
        assert_eq!(run.phase, KeyPhase::Ended(KeyEnd::Stopped));
    }
    let mut run = SequenceRun::start(2, 3);
    run.step(SequenceEvent::Waited(Control::Stop));
    run.step(SequenceEvent::Pressed { key: KEY, ok: true });
    assert_eq!(run.phase, SequencePhase::Ended(Control::Stop));
}

#[test]
fn failures_end_limited_runs_and_delay_others() {
    let mut limited = KeyRun::start(5);
    limited.step(waited(false));
    limited.step(pressed(false));
    assert_eq!(limited.phase, KeyPhase::Ended(KeyEnd::Failed));

    let mut endless = KeyRun::start(-1);
    endless.step(waited(false));
    endless.step(pressed(false));
    assert_eq!(endless.phase, KeyPhase::Recovery);
    endless.step(pressed(true));
    assert_eq!(endless.phase, KeyPhase::Recovery);
    endless.step(waited(false));
    assert_eq!(endless.phase, KeyPhase::BeforePress);
    assert_eq!(endless.completed, 0);
    endless.step(waited(false));
    endless.step(pressed(true));
    endless.step(waited(false));
    endless.step(released(false));
    assert_eq!(endless.phase, KeyPhase::Recovery);
    endless.step(waited(true));
    assert_eq!(endless.phase, KeyPhase::Ended(KeyEnd::Stopped));
}

#[test]
fn keys_in_order_take_turns() {
    let mut run = SequenceRun::start(3, 2);
    let mut pressed = Vec::new();
    while !matches!(run.phase, SequencePhase::Ended(_)) {
        match run.phase {
            SequencePhase::Pressing => {
                pressed.push(run.position);
                run.step(SequenceEvent::Pressed { key: KEY, ok: true });
            }
            SequencePhase::Releasing { .. } => run.step(SequenceEvent::Released { ok: true }),
            _ => run.step(SequenceEvent::Waited(Control::Continue)),
        }
    }
    assert_eq!(pressed, vec![0, 1, 2, 0, 1, 2]);
    assert_eq!(run.phase, SequencePhase::Ended(Control::Continue));
    assert_eq!(run.completed, 2);
}

#[test]
fn a_run_in_order_ends_on_commands_and_failures() {
    let mut run = SequenceRun::start(2, -1);
    run.step(SequenceEvent::Waited(Control::Exit));
    assert_eq!(run.phase, SequencePhase::Ended(Control::Exit));

    let mut run = SequenceRun::start(2, -1);
    run.step(SequenceEvent::Waited(Control::Continue));
    run.step(SequenceEvent::Pressed { key: KEY, ok: false });
    assert_eq!(run.phase, SequencePhase::Ended(Control::Stop));

    let mut run = SequenceRun::start(2, -1);
    run.step(SequenceEvent::Waited(Control::Continue));
    run.step(SequenceEvent::Pressed { key: KEY, ok: true });
    run.step(SequenceEvent::Waited(Control::Stop));
    assert_eq!(
        run.phase,
        SequencePhase::Releasing { key: KEY, control: Control::Stop }
    );
    run.step(SequenceEvent::Released { ok: true });
    assert_eq!(run.phase, SequencePhase::Ended(Control::Stop));

    let mut run = SequenceRun::start(2, -1);
    run.phase = SequencePhase::Interval;
    run.step(SequenceEvent::Waited(Control::Stop));
    assert_eq!(run.phase, SequencePhase::Ended(Control::Stop));
}

#[test]
fn the_supervisor_waits_for_all_keys() {
    let mut status = EngineStatus::new(String::new());
    status.set_started("运行中，共 2 个按键");
    let mut remaining = 2usize;
    assert_eq!(supervise(&mut remaining, &mut status, SupervisorEvent::KeyEnded), None);
    assert_eq!(
        supervise(
            &mut remaining,
            &mut status,
            SupervisorEvent::Waited(CommandEvent::Timeout)
        ),
        None
    );
    assert_eq!(
        supervise(&mut remaining, &mut status, SupervisorEvent::KeyEnded),
        Some(Control::Continue)
    );
    remaining = 5;
    assert_eq!(
        supervise(&mut remaining, &mut status, SupervisorEvent::AllEnded),
        Some(Control::Continue)
    );
    assert_eq!(remaining, 0);
    remaining = 5;
    assert_eq!(
        supervise(
            &mut remaining,
            &mut status,
            SupervisorEvent::Waited(CommandEvent::Command(AppCommand::Exit))
        ),
        Some(Control::Exit)
    );
    assert!(status.running);
    assert_eq!(
        supervise(
            &mut remaining,
            &mut status,
            SupervisorEvent::Waited(CommandEvent::Command(AppCommand::Stop))
        ),
        Some(Control::Stop)
    );
    assert!(!status.running);
    assert_eq!(status.status, "已停止");
}
