//! The scheduler: when a run starts, which keys it presses in which order, and
//! when it ends.
//!
//! The decisions are made here.  Waiting, sending keys and receiving commands
//! are the caller's work: a run says what is to be done next, and is told what
//! came of it.
use crate::commands::AppCommand;
use crate::config::{Config, KeyConfig, KEY_SLOT_COUNT, MAX_DELAY_MS};
use crate::humanizer::{next_delay, TimingState};
use crate::input::{input_target, InputTarget};
use crate::text::{concat3, format_decimal, starts_with};
use crate::window::BindingSnapshot;
use vstd::prelude::*;

verus! {

/// How long a key that runs without a limit waits after a failure, in
/// milliseconds.
pub const RECOVERY_DELAY_MS: u32 = 100;

/// How long the supervisor of independent keys waits for a command before it
/// looks at the keys again, in milliseconds.
pub const SUPERVISION_INTERVAL_MS: u32 = 20;

/// How a wait or a run ended.
#[derive(Debug, Clone, Copy, PartialEq, Eq, Structural)]
pub enum Control {
    Continue,
    Stop,
    Exit,
}

// ---------------------------------------------------------------------------
// Commands
// ---------------------------------------------------------------------------
/// What a command does while nothing runs.
#[derive(Debug, Clone, Copy, PartialEq, Eq, Structural)]
pub enum IdleDecision {
    /// A run is started, if the profile allows one.
    Run,
    /// The scheduler stays stopped.
    StayStopped,
    /// The scheduler ends.
    Quit,
}

/// What a command does while nothing runs.
pub open spec fn idle_decision_of(command: AppCommand, running: bool) -> IdleDecision {
    match command {
        AppCommand::Start => IdleDecision::Run,
        AppCommand::ToggleRunning => if running {
            IdleDecision::StayStopped
        } else {
            IdleDecision::Run
        },
        AppCommand::Stop => IdleDecision::StayStopped,
        AppCommand::Exit => IdleDecision::Quit,
    }
}

/// What a command does while nothing runs.
pub fn idle_decision(command: AppCommand, running: bool) -> (r: IdleDecision)
    ensures
        r == idle_decision_of(command, running),
{
    match command {
        AppCommand::Start => IdleDecision::Run,
        AppCommand::ToggleRunning => if running {
            IdleDecision::StayStopped
        } else {
            IdleDecision::Run
        },
        AppCommand::Stop => IdleDecision::StayStopped,
        AppCommand::Exit => IdleDecision::Quit,
    }
}

/// What came of waiting for a command.
#[derive(Debug, Clone, Copy, PartialEq, Eq, Structural)]
pub enum CommandEvent {
    Command(AppCommand),
    /// The time was up.
    Timeout,
    /// No command can come any more.
    Disconnected,
}

/// What a command, or its absence, means to a run.
pub open spec fn control_of(event: CommandEvent) -> Control {
    match event {
        CommandEvent::Timeout => Control::Continue,
        CommandEvent::Disconnected => Control::Exit,
        CommandEvent::Command(AppCommand::Start) => Control::Continue,
        CommandEvent::Command(AppCommand::Stop) => Control::Stop,
        CommandEvent::Command(AppCommand::ToggleRunning) => Control::Stop,
        CommandEvent::Command(AppCommand::Exit) => Control::Exit,
    }
}

/// Only an exit ends the scheduler, a start always begins a run, and a toggle
/// does so exactly while nothing is shown to run.
pub proof fn lemma_idle_decision(command: AppCommand, running: bool)
    ensures
        idle_decision_of(command, running) is Quit <==> command is Exit,
        idle_decision_of(command, running) is Run <==> command is Start || (command
            is ToggleRunning && !running),
        idle_decision_of(command, running) is StayStopped <==> command is Stop || (command
            is ToggleRunning && running),
{
}

/// A run goes on over a start and a timeout, is stopped by a stop and a toggle,
/// and ends the scheduler with an exit or where no command can come any more.
pub proof fn lemma_command_controls_run(event: CommandEvent)
    ensures
        control_of(event) == Control::Continue <==> event is Timeout || event
            == CommandEvent::Command(AppCommand::Start),
        control_of(event) == Control::Stop <==> event == CommandEvent::Command(AppCommand::Stop)
            || event == CommandEvent::Command(AppCommand::ToggleRunning),
        control_of(event) == Control::Exit <==> event is Disconnected || event
            == CommandEvent::Command(AppCommand::Exit),
{
}

// ---------------------------------------------------------------------------
// What the window shows of the scheduler
// ---------------------------------------------------------------------------
/// What the scheduler shows of itself.
pub struct EngineStatus {
    pub running: bool,
    /// For each key whether it is being run.
    pub key_running: Vec<bool>,
    pub status: String,
}

/// The mathematical content of an [`EngineStatus`].
#[verifier::ext_equal]
pub struct StatusModel {
    pub running: bool,
    pub key_running: Seq<bool>,
    pub status: Seq<char>,
}

impl View for EngineStatus {
    type V = StatusModel;

    open spec fn view(&self) -> StatusModel {
        StatusModel {
            running: self.running,
            key_running: self.key_running@,
            status: self.status@,
        }
    }
}

/// No key of `n` is being run.
pub open spec fn no_key(n: nat) -> Seq<bool> {
    Seq::new(n, |i: int| false)
}

/// As many marks as there are keys in a profile.
pub open spec fn resized(marks: Seq<bool>) -> Seq<bool> {
    Seq::new(KEY_SLOT_COUNT as nat, |i: int| i < marks.len() && marks[i])
}

/// The scheduler once it is stopped, with a message.
pub open spec fn stopped(s: StatusModel, message: Seq<char>) -> StatusModel {
    StatusModel { running: false, key_running: no_key(s.key_running.len()), status: message }
}

fn unmarked(n: usize) -> (r: Vec<bool>)
    ensures
        r@ == no_key(n as nat),
{
    let mut out: Vec<bool> = Vec::new();
    while out.len() < n
        invariant
            out@.len() <= n,
            forall|i: int| 0 <= i < out@.len() ==> !#[trigger] out@[i],
        decreases n - out@.len(),
    {
        out.push(false);
    }
    assert(out@ =~= no_key(n as nat));
    out
}

impl EngineStatus {
    /// Nothing runs yet.
    pub fn new(status: String) -> (r: EngineStatus)
        ensures
            r@ == (StatusModel {
                running: false,
                key_running: no_key(KEY_SLOT_COUNT as nat),
                status: status@,
            }),
    {
        EngineStatus { running: false, key_running: unmarked(KEY_SLOT_COUNT), status }
    }

    /// Shows that nothing runs, and a message.
    pub fn set_stopped(&mut self, message: &str)
        ensures
            final(self)@ == stopped(old(self)@, message@),
    {
        self.running = false;
        self.key_running = unmarked(self.key_running.len());
        self.status = message.to_owned();
    }

    /// Shows that a run was started.
    pub fn set_started(&mut self, message: &str)
        ensures
            final(self)@ == (StatusModel { running: true, status: message@, ..old(self)@ }),
    {
        self.running = true;
        self.status = message.to_owned();
    }

    /// Shows whether a key is being run.
    pub fn set_key_running(&mut self, index: usize, running: bool)
        ensures
            final(self)@ == (StatusModel {
                key_running: if index < KEY_SLOT_COUNT {
                    resized(old(self)@.key_running).update(index as int, running)
                } else {
                    resized(old(self)@.key_running)
                },
                ..old(self)@
            }),
    {
        self.key_running.truncate(KEY_SLOT_COUNT);
        while self.key_running.len() < KEY_SLOT_COUNT
            invariant
                self.key_running@.len() <= KEY_SLOT_COUNT,
                self.key_running@.len() >= old(self)@.key_running.len() || self.key_running@.len()
                    == KEY_SLOT_COUNT,
                forall|i: int|
                    0 <= i < self.key_running@.len() ==> #[trigger] self.key_running@[i] == (i
                        < old(self)@.key_running.len() && old(self)@.key_running[i]),
                self.running == old(self).running,
                self.status == old(self).status,
            decreases KEY_SLOT_COUNT - self.key_running@.len(),
        {
            self.key_running.push(false);
        }
        assert(self.key_running@ =~= resized(old(self)@.key_running));
        if index < KEY_SLOT_COUNT {
            self.key_running.set(index, running);
        }
    }

    /// Shows that a key could not be sent.
    pub fn set_send_failed(&mut self, key_name: &str, error: &str)
        ensures
            final(self)@ == (StatusModel {
                status: "按键 ["@ + key_name@ + "] 发送失败: "@ + error@,
                ..old(self)@
            }),
    {
        let head = concat3("按键 [", key_name, "] 发送失败: ");
        self.status = crate::text::concat(&head, error);
    }

    /// Takes note of what came of waiting for a command during a run.
    pub fn after_wait(&mut self, event: CommandEvent) -> (r: Control)
        ensures
            r == control_of(event),
            final(self)@ == if r == Control::Stop {
                (StatusModel { running: false, status: "已停止"@, ..old(self)@ })
            } else {
                old(self)@
            },
    {
        match event {
            CommandEvent::Timeout => Control::Continue,
            CommandEvent::Disconnected => Control::Exit,
            CommandEvent::Command(command) => match command {
                AppCommand::Start => Control::Continue,
                AppCommand::Exit => Control::Exit,
                AppCommand::Stop | AppCommand::ToggleRunning => {
                    self.running = false;
                    self.status = "已停止".to_owned();
                    Control::Stop
                },
            },
        }
    }

    /// Shows how a run ended.  A message that the run left stays, unless it is
    /// the one about running.
    pub fn finish_run(&mut self, control: Control)
        ensures
            final(self)@ == stopped(
                old(self)@,
                match control {
                    Control::Continue => "已完成"@,
                    Control::Stop => if crate::text::begins_with(old(self)@.status, "运行中"@) {
                        "已停止"@
                    } else {
                        old(self)@.status
                    },
                    Control::Exit => old(self)@.status,
                },
            ),
    {
        self.running = false;
        self.key_running = unmarked(self.key_running.len());
        match control {
            Control::Continue => {
                self.status = "已完成".to_owned();
            },
            Control::Stop => {
                if starts_with(&self.status, "运行中") {
                    self.status = "已停止".to_owned();
                }
            },
            Control::Exit => {},
        }
    }
}

/// Once stopped, nothing is shown to run, whatever was before, for as many keys
/// as before; marks are brought to the number of keys of a profile without
/// changing those that are there.
pub proof fn lemma_marks(s: StatusModel, message: Seq<char>, marks: Seq<bool>, i: int)
    ensures
        !stopped(s, message).running,
        stopped(s, message).status == message,
        stopped(s, message).key_running.len() == s.key_running.len(),
        0 <= i < s.key_running.len() ==> !stopped(s, message).key_running[i],
        no_key(marks.len()).len() == marks.len(),
        0 <= i < marks.len() ==> !no_key(marks.len())[i],
        resized(marks).len() == 12,
        0 <= i < 12 && i < marks.len() ==> resized(marks)[i] == marks[i],
        marks.len() <= i < 12 ==> !resized(marks)[i],
{
}

// ---------------------------------------------------------------------------
// The plan of a run
// ---------------------------------------------------------------------------
/// A key of a run, with its row in the profile.
#[derive(Debug)]
pub struct RunKey {
    pub index: usize,
    pub config: KeyConfig,
}

/// The mathematical content of a [`RunKey`].
pub struct RunKeyModel {
    pub index: int,
    pub key: crate::config::KeyModel,
}

impl View for RunKey {
    type V = RunKeyModel;

    open spec fn view(&self) -> RunKeyModel {
        RunKeyModel { index: self.index as int, key: self.config@ }
    }
}

/// The keys of a list.
pub open spec fn run_key_models(keys: Seq<RunKey>) -> Seq<RunKeyModel> {
    Seq::new(keys.len(), |i: int| keys[i]@)
}

/// The enabled keys of a profile, in the order of their rows.
pub open spec fn run_keys(keys: Seq<crate::config::KeyModel>) -> Seq<RunKeyModel>
    decreases keys.len(),
{
    if keys.len() == 0 {
        Seq::empty()
    } else {
        let rest = run_keys(keys.drop_last());
        if keys.last().enabled && keys.last().vk_code > 0 {
            rest.push(RunKeyModel { index: keys.len() - 1, key: keys.last() })
        } else {
            rest
        }
    }
}

/// What a run presses, fixed when it starts.
pub struct RunPlan {
    /// The profile as it was when the run started.
    pub config: Config,
    pub keys: Vec<RunKey>,
    /// What is shown while it runs.
    pub status: String,
}

/// What is shown while so many keys run.
pub open spec fn running_message(count: nat) -> Seq<char> {
    "运行中，共 "@ + crate::text::decimal(count) + " 个按键"@
}

/// Why a profile cannot be run.
pub open spec fn refusal(config: crate::config::ConfigModel) -> Option<Seq<char>> {
    match crate::config::validation_message(config) {
        Some(message) => Some(message),
        None => if config.max_loops == 0 {
            Some("循环次数为 0，没有执行任务"@)
        } else {
            None
        },
    }
}

/// The plan for running a profile, or the reason why it cannot be run.
pub fn plan_run(config: &Config) -> (r: Result<RunPlan, String>)
    ensures
        match r {
            Err(message) => refusal(config@) == Some(message@),
            Ok(plan) => {
                &&& refusal(config@) is None
                &&& plan.config@ == config@
                &&& run_key_models(plan.keys@) == run_keys(config@.keys)
                &&& plan.status@ == running_message(plan.keys@.len())
            },
        },
{
    if let Some(message) = config.validation_error() {
        return Err(message);
    }
    if config.max_loops == 0 {
        return Err("循环次数为 0，没有执行任务".to_owned());
    }
    let mut keys: Vec<RunKey> = Vec::new();
    let mut i: usize = 0;
    while i < config.keys.len()
        invariant
            i <= config.keys@.len(),
            keys@.len() <= i,
            run_key_models(keys@) == run_keys(config@.keys.take(i as int)),
        decreases config.keys@.len() - i,
    {
        let ghost before = keys@;
        assert(config@.keys.take(i + 1).drop_last() =~= config@.keys.take(i as int));
        assert(config@.keys.take(i + 1).last() == config.keys@[i as int]@);
        if config.keys[i].enabled && config.keys[i].vk_code > 0 {
            keys.push(RunKey { index: i, config: config.keys[i].clone() });
            assert(run_key_models(keys@) =~= run_key_models(before).push(keys@.last()@));
        }
        i = i + 1;
    }
    assert(config@.keys.take(i as int) =~= config@.keys);
    let count = format_decimal(keys.len() as u64);
    Ok(RunPlan { config: config.clone(), keys, status: concat3("运行中，共 ", &count, " 个按键") })
}

/// A run presses exactly the enabled keys, in the order of their rows.
pub proof fn lemma_run_keys(keys: Seq<crate::config::KeyModel>)
    ensures
        forall|i: int, j: int|
            #![trigger run_keys(keys)[i], run_keys(keys)[j]]
            0 <= i < j < run_keys(keys).len() ==> run_keys(keys)[i].index < run_keys(
                keys,
            )[j].index,
        forall|i: int|
            0 <= i < run_keys(keys).len() ==> {
                let key = #[trigger] run_keys(keys)[i];
                &&& 0 <= key.index < keys.len()
                &&& key.key == keys[key.index]
                &&& key.key.enabled
                &&& key.key.vk_code > 0
            },
        forall|row: int|
            0 <= row < keys.len() && (#[trigger] keys[row]).enabled && keys[row].vk_code > 0
                ==> exists|i: int|
                0 <= i < run_keys(keys).len() && (#[trigger] run_keys(keys)[i]).index == row,
    decreases keys.len(),
{
    if keys.len() > 0 {
        let rest = keys.drop_last();
        lemma_run_keys(rest);
        assert forall|row: int|
            0 <= row < keys.len() && (#[trigger] keys[row]).enabled && keys[row].vk_code
                > 0 implies exists|i: int|
            0 <= i < run_keys(keys).len() && (#[trigger] run_keys(keys)[i]).index == row by {
            if row < rest.len() {
                assert(rest[row] == keys[row]);
                let i = choose|i: int|
                    0 <= i < run_keys(rest).len() && (#[trigger] run_keys(rest)[i]).index == row;
                assert(run_keys(keys)[i] == run_keys(rest)[i]);
            } else {
                assert(run_keys(keys)[run_keys(keys).len() - 1].index == row);
            }
        }
        assert forall|i: int| 0 <= i < run_keys(keys).len() implies {
            let key = #[trigger] run_keys(keys)[i];
            &&& 0 <= key.index < keys.len()
            &&& key.key == keys[key.index]
            &&& key.key.enabled
            &&& key.key.vk_code > 0
        } by {
            if i < run_keys(rest).len() {
                assert(run_keys(keys)[i] == run_keys(rest)[i]);
            }
        }
        assert forall|i: int, j: int|
            #![trigger run_keys(keys)[i], run_keys(keys)[j]]
            0 <= i < j < run_keys(keys).len() implies run_keys(keys)[i].index < run_keys(
            keys,
        )[j].index by {
            assert(run_keys(keys)[i] == run_keys(rest)[i]);
            if j < run_keys(rest).len() {
                assert(run_keys(keys)[j] == run_keys(rest)[j]);
            }
        }
    }
}

/// A profile that can be run has a key to press, and every key of the run has a
/// code that can be sent.
pub proof fn lemma_plan_is_pressable(config: crate::config::ConfigModel)
    requires
        refusal(config) is None,
    ensures
        run_keys(config.keys).len() > 0,
        forall|i: int|
            0 <= i < run_keys(config.keys).len() ==> crate::config::pressable(
                (#[trigger] run_keys(config.keys)[i]).key.vk_code,
            ),
{
    lemma_run_keys(config.keys);
    crate::config::lemma_valid_profile_can_run(config);
    let row = choose|i: int|
        0 <= i < config.keys.len() && crate::config::runnable(#[trigger] config.keys[i]);
    assert(config.keys[row].enabled);
    assert forall|i: int| 0 <= i < run_keys(config.keys).len() implies crate::config::pressable(
        (#[trigger] run_keys(config.keys)[i]).key.vk_code,
    ) by {
        let key = run_keys(config.keys)[i];
        assert(!crate::config::enabled_but_unset(config.keys[key.index]));
    }
}

/// A profile is refused exactly if no enabled key has a code from 1 to 254, or
/// some enabled key has none, or no round is asked for.
pub proof fn lemma_refusal(config: crate::config::ConfigModel)
    ensures
        refusal(config) is None <==> {
            &&& config.max_loops != 0
            &&& exists|i: int|
                0 <= i < config.keys.len() && (#[trigger] config.keys[i]).enabled && 1
                    <= config.keys[i].vk_code <= 254
            &&& forall|i: int|
                0 <= i < config.keys.len() && (#[trigger] config.keys[i]).enabled ==> 1
                    <= config.keys[i].vk_code <= 254
        },
{
    crate::config::lemma_valid_profile_can_run(config);
    if refusal(config) is None {
        let i = choose|i: int|
            0 <= i < config.keys.len() && crate::config::runnable(#[trigger] config.keys[i]);
        assert(config.keys[i].enabled);
        assert forall|i: int|
            0 <= i < config.keys.len() && (#[trigger] config.keys[i]).enabled implies 1
            <= config.keys[i].vk_code <= 254 by {
            assert(!crate::config::enabled_but_unset(config.keys[i]));
        }
    }
    if exists|i: int|
        0 <= i < config.keys.len() && (#[trigger] config.keys[i]).enabled && 1
            <= config.keys[i].vk_code <= 254 {
        let i = choose|i: int|
            0 <= i < config.keys.len() && (#[trigger] config.keys[i]).enabled && 1
                <= config.keys[i].vk_code <= 254;
        assert(crate::config::runnable(config.keys[i]));
    }
}

/// What is shown while keys run tells their number, and begins with the words by
/// which [`EngineStatus::finish_run`] knows that it is to be replaced.
pub proof fn lemma_running_message(a: nat, b: nat)
    ensures
        crate::text::begins_with(running_message(a), "运行中"@),
        running_message(a) == running_message(b) ==> a == b,
        crate::text::occurs_in(running_message(a), crate::text::decimal(a)),
{
    reveal_strlit("运行中");
    reveal_strlit("运行中，共 ");
    reveal_strlit(" 个按键");
    let head = "运行中，共 "@;
    let tail = " 个按键"@;
    assert(running_message(a).subrange(0, 3) =~= "运行中"@);
    assert(running_message(a).take(3) =~= "运行中"@);
    let from = head.len() as int;
    let to_a = running_message(a).len() - tail.len();
    let to_b = running_message(b).len() - tail.len();
    assert(running_message(a).subrange(from, to_a) =~= crate::text::decimal(a));
    assert(running_message(b).subrange(from, to_b) =~= crate::text::decimal(b));
    assert(crate::text::occurs_at(running_message(a), crate::text::decimal(a), from));
    crate::text::lemma_decimal_round_trip(a);
    crate::text::lemma_decimal_round_trip(b);
}

// ---------------------------------------------------------------------------
// Intervals
// ---------------------------------------------------------------------------
/// The range around the interval of a key: its own and that of the profile.
pub open spec fn combined_range_of(random_range: u32, global_random_delay: u32) -> u32 {
    if random_range + global_random_delay > MAX_DELAY_MS {
        MAX_DELAY_MS
    } else {
        (random_range + global_random_delay) as u32
    }
}

/// The range around the interval of a key: its own and that of the profile.
pub fn combined_range(config: &Config, key: &RunKey) -> (r: u32)
    ensures
        r == combined_range_of(key.config.random_range, config.global_random_delay),
{
    let sum: u32 = key.config.random_range.saturating_add(config.global_random_delay);
    if sum > MAX_DELAY_MS {
        MAX_DELAY_MS
    } else {
        sum
    }
}

/// The range of a key and that of its profile are added, up to an hour: without
/// one of them it is the other, and it grows with each.
pub proof fn lemma_combined_range(own: u32, global: u32, more: u32)
    ensures
        own + global <= 3_600_000 ==> combined_range_of(own, global) == own + global,
        own + global > 3_600_000 ==> combined_range_of(own, global) == 3_600_000,
        own <= 3_600_000 ==> combined_range_of(own, 0) == own,
        global <= 3_600_000 ==> combined_range_of(0, global) == global,
        combined_range_of(own, global) == combined_range_of(global, own),
        own + global + more <= 3_600_000 ==> combined_range_of((own + more) as u32, global)
            == combined_range_of(own, global) + more,
        own + global + more <= 3_600_000 ==> combined_range_of(own, (global + more) as u32)
            == combined_range_of(own, global) + more,
{
}

/// The interval after a press of a key, in milliseconds.
pub fn calculate_delay<C: FnOnce(u32) -> i64, D: FnOnce(u32) -> i64>(
    timing: &mut TimingState,
    config: &Config,
    key: &RunKey,
    jitter: i64,
    correlate: C,
    drift: D,
) -> (r: u32)
    requires
        crate::humanizer::sources_answer(
            old(timing)@.level,
            key.config.base_delay,
            combined_range_of(key.config.random_range, config.global_random_delay),
            jitter,
            correlate,
            drift,
        ),
    ensures
        crate::humanizer::delay_follows(
            old(timing)@,
            final(timing)@,
            key.config.base_delay,
            combined_range_of(key.config.random_range, config.global_random_delay),
            key.index,
            jitter,
            correlate,
            drift,
            r,
        ),
        crate::humanizer::shortest_delay(
            key.config.base_delay,
            combined_range_of(key.config.random_range, config.global_random_delay),
        ) <= r <= crate::humanizer::longest_delay(
            key.config.base_delay,
            combined_range_of(key.config.random_range, config.global_random_delay),
        ),
{
    next_delay(
        timing,
        key.config.base_delay,
        combined_range(config, key),
        key.index,
        jitter,
        correlate,
        drift,
    )
}

/// What is left to wait of an interval that began `elapsed_ms` ago; nothing if
/// it is over.
pub open spec fn remaining_of(delay_ms: u32, elapsed_ms: u64) -> int {
    if elapsed_ms >= delay_ms {
        0
    } else {
        delay_ms - elapsed_ms
    }
}

/// What is left to wait of an interval that began `elapsed_ms` ago.
pub fn remaining_delay(delay_ms: u32, elapsed_ms: u64) -> (r: u32)
    ensures
        r == remaining_of(delay_ms, elapsed_ms),
{
    if elapsed_ms >= delay_ms as u64 {
        0
    } else {
        delay_ms - elapsed_ms as u32
    }
}

/// An interval counts from the press: what the press itself took is part of it.
/// If that was longer than the interval, the next press follows at once.
pub proof fn lemma_interval_counts_from_press(delay_ms: u32, elapsed_ms: u64)
    ensures
        elapsed_ms <= delay_ms ==> elapsed_ms + remaining_of(delay_ms, elapsed_ms) == delay_ms,
        elapsed_ms >= delay_ms ==> remaining_of(delay_ms, elapsed_ms) == 0,
{
}

/// Whether so many rounds are all that was asked for.
pub open spec fn limit_reached(max_loops: i32, completed: u32) -> bool {
    max_loops >= 0 && completed >= max_loops
}

/// Whether so many rounds are all that was asked for.
pub fn reached_limit(max_loops: i32, completed: u32) -> (r: bool)
    ensures
        r == limit_reached(max_loops, completed),
{
    max_loops >= 0 && completed >= max_loops as u32
}

/// A negative limit is never reached, and any other one exactly from as many
/// rounds on; once reached, it stays so.
pub proof fn lemma_limit(max_loops: i32, completed: u32, later: u32)
    ensures
        max_loops < 0 ==> !limit_reached(max_loops, completed),
        max_loops >= 0 ==> (limit_reached(max_loops, completed) <==> completed >= max_loops),
        limit_reached(max_loops, completed) && completed <= later ==> limit_reached(
            max_loops,
            later,
        ),
{
}

// ---------------------------------------------------------------------------
// A key that is held
// ---------------------------------------------------------------------------
/// A key that is held: whom its press goes to, and its code.
#[derive(Debug, Clone, Copy, PartialEq, Eq, Structural)]
pub struct HeldKey {
    pub target: InputTarget,
    pub vk_code: u16,
}

/// The key that a press with a code holds, given the window that is bound then.
pub open spec fn held_by_press(snapshot: Option<BindingSnapshot>, vk_code: u16) -> HeldKey {
    HeldKey { target: crate::input::target_of(snapshot), vk_code }
}

impl HeldKey {
    /// Chooses whom a press goes to: the window that is bound now, or the one in
    /// front.
    pub fn press(snapshot: &Option<BindingSnapshot>, vk_code: u16) -> (r: HeldKey)
        ensures
            r == held_by_press(*snapshot, vk_code),
    {
        HeldKey { target: input_target(snapshot), vk_code }
    }

    /// Whom the release goes to, and its code: those of the press.
    pub fn release(&self) -> (r: (InputTarget, u16))
        ensures
            r == (self.target, self.vk_code),
    {
        (self.target, self.vk_code)
    }
}

// ---------------------------------------------------------------------------
// The run of one key on its own
// ---------------------------------------------------------------------------
/// Why the run of a key ended.
#[derive(Debug, Clone, Copy, PartialEq, Eq, Structural)]
pub enum KeyEnd {
    /// All rounds are done.
    Completed,
    Stopped,
    /// A key could not be sent, in a run with a limit.
    Failed,
}

/// What the run of a key is at, and so what is to be done next.
#[derive(Debug, Clone, Copy, PartialEq, Eq, Structural)]
pub enum KeyPhase {
    /// Wait before the press.
    BeforePress,
    /// Send the press.
    Pressing,
    /// Wait while the key is held.
    Holding { key: HeldKey },
    /// Send the release of the key that is held; the run was or was not stopped
    /// in the meantime.
    Releasing { key: HeldKey, stopped: bool },
    /// Wait until the interval since the press is over.
    Interval,
    /// Wait [`RECOVERY_DELAY_MS`] after a failure.
    Recovery,
    /// Nothing more.
    Ended(KeyEnd),
}

/// What came of what was done.
#[derive(Debug, Clone, Copy, PartialEq, Eq, Structural)]
pub enum KeyRunEvent {
    /// The wait is over; the run was or was not stopped.
    Waited { stopped: bool },
    /// The press of a key was or was not sent.
    Pressed { key: HeldKey, ok: bool },
    /// The release was or was not sent.
    Released { ok: bool },
}

/// The run of one key on its own.
#[derive(Debug, Clone, Copy, PartialEq, Eq, Structural)]
pub struct KeyRun {
    pub max_loops: i32,
    pub completed: u32,
    pub phase: KeyPhase,
}

/// The run of a key at its start.
pub open spec fn key_run_start(max_loops: i32) -> KeyRun {
    KeyRun { max_loops, completed: 0, phase: KeyPhase::BeforePress }
}

/// One more round, as far as they are counted.
pub open spec fn counted(completed: u32) -> u32 {
    if completed == u32::MAX {
        u32::MAX
    } else {
        (completed + 1) as u32
    }
}

/// Where the run of a key goes when a key could not be sent.
pub open spec fn after_failure(max_loops: i32) -> KeyPhase {
    if max_loops >= 0 {
        KeyPhase::Ended(KeyEnd::Failed)
    } else {
        KeyPhase::Recovery
    }
}

/// The run of a key after one event.  An event that does not answer what was to
/// be done changes nothing.
pub open spec fn key_run_step(m: KeyRun, e: KeyRunEvent) -> KeyRun {
    match (m.phase, e) {
        (KeyPhase::BeforePress, KeyRunEvent::Waited { stopped }) => KeyRun {
            phase: if stopped {
                KeyPhase::Ended(KeyEnd::Stopped)
            } else {
                KeyPhase::Pressing
            },
            ..m
        },
        (KeyPhase::Pressing, KeyRunEvent::Pressed { key, ok }) => KeyRun {
            phase: if ok {
                KeyPhase::Holding { key }
            } else {
                after_failure(m.max_loops)
            },
            ..m
        },
        (KeyPhase::Holding { key }, KeyRunEvent::Waited { stopped }) => KeyRun {
            phase: KeyPhase::Releasing { key, stopped },
            ..m
        },
        (KeyPhase::Releasing { stopped, .. }, KeyRunEvent::Released { ok }) => KeyRun {
            phase: if !ok {
                after_failure(m.max_loops)
            } else if stopped {
                KeyPhase::Ended(KeyEnd::Stopped)
            } else {
                KeyPhase::Interval
            },
            ..m
        },
        (KeyPhase::Interval, KeyRunEvent::Waited { stopped }) => if stopped {
            KeyRun { phase: KeyPhase::Ended(KeyEnd::Stopped), ..m }
        } else {
            KeyRun {
                completed: counted(m.completed),
                phase: if limit_reached(m.max_loops, counted(m.completed)) {
                    KeyPhase::Ended(KeyEnd::Completed)
                } else {
                    KeyPhase::BeforePress
                },
                ..m
            }
        },
        (KeyPhase::Recovery, KeyRunEvent::Waited { stopped }) => KeyRun {
            phase: if stopped {
                KeyPhase::Ended(KeyEnd::Stopped)
            } else {
                KeyPhase::BeforePress
            },
            ..m
        },
        _ => m,
    }
}

impl KeyRun {
    /// Starts the run of a key.
    pub fn start(max_loops: i32) -> (r: KeyRun)
        ensures
            r == key_run_start(max_loops),
    {
        KeyRun { max_loops, completed: 0, phase: KeyPhase::BeforePress }
    }

    fn fail(&mut self)
        ensures
            *final(self) == (KeyRun { phase: after_failure(old(self).max_loops), ..*old(self) }),
    {
        self.phase = if self.max_loops >= 0 {
            KeyPhase::Ended(KeyEnd::Failed)
        } else {
            KeyPhase::Recovery
        };
    }

    /// Takes note of an event.
    pub fn step(&mut self, event: KeyRunEvent)
        ensures
            *final(self) == key_run_step(*old(self), event),
    {
        match (self.phase, event) {
            (KeyPhase::BeforePress, KeyRunEvent::Waited { stopped }) => {
                self.phase = if stopped {
                    KeyPhase::Ended(KeyEnd::Stopped)
                } else {
                    KeyPhase::Pressing
                };
            },
            (KeyPhase::Pressing, KeyRunEvent::Pressed { key, ok }) => {
                if ok {
                    self.phase = KeyPhase::Holding { key };
                } else {
                    self.fail();
                }
            },
            (KeyPhase::Holding { key }, KeyRunEvent::Waited { stopped }) => {
                self.phase = KeyPhase::Releasing { key, stopped };
            },
            (KeyPhase::Releasing { stopped, .. }, KeyRunEvent::Released { ok }) => {
                if !ok {
                    self.fail();
                } else if stopped {
                    self.phase = KeyPhase::Ended(KeyEnd::Stopped);
                } else {
                    self.phase = KeyPhase::Interval;
                }
            },
            (KeyPhase::Interval, KeyRunEvent::Waited { stopped }) => {
                if stopped {
                    self.phase = KeyPhase::Ended(KeyEnd::Stopped);
                } else {
                    self.completed = self.completed.saturating_add(1);
                    self.phase = if reached_limit(self.max_loops, self.completed) {
                        KeyPhase::Ended(KeyEnd::Completed)
                    } else {
                        KeyPhase::BeforePress
                    };
                }
            },
            (KeyPhase::Recovery, KeyRunEvent::Waited { stopped }) => {
                self.phase = if stopped {
                    KeyPhase::Ended(KeyEnd::Stopped)
                } else {
                    KeyPhase::BeforePress
                };
            },
            _ => {},
        }
    }
}

/// The run of a key after a number of events.
pub open spec fn key_run_after(m: KeyRun, events: Seq<KeyRunEvent>) -> KeyRun
    decreases events.len(),
{
    if events.len() == 0 {
        m
    } else {
        key_run_step(key_run_after(m, events.drop_last()), events.last())
    }
}

/// The keys whose press was sent in the course of the events, in order.
pub open spec fn pressed_keys(m: KeyRun, events: Seq<KeyRunEvent>) -> Seq<HeldKey>
    decreases events.len(),
{
    if events.len() == 0 {
        Seq::empty()
    } else {
        let earlier = pressed_keys(m, events.drop_last());
        match (key_run_after(m, events.drop_last()).phase, events.last()) {
            (KeyPhase::Pressing, KeyRunEvent::Pressed { key, ok }) => if ok {
                earlier.push(key)
            } else {
                earlier
            },
            _ => earlier,
        }
    }
}

/// The keys whose release was attempted in the course of the events, in order.
pub open spec fn released_keys(m: KeyRun, events: Seq<KeyRunEvent>) -> Seq<HeldKey>
    decreases events.len(),
{
    if events.len() == 0 {
        Seq::empty()
    } else {
        let earlier = released_keys(m, events.drop_last());
        match (key_run_after(m, events.drop_last()).phase, events.last()) {
            (KeyPhase::Releasing { key, .. }, KeyRunEvent::Released { .. }) => earlier.push(key),
            _ => earlier,
        }
    }
}

/// The key that was pressed and whose release is still to be sent.
pub open spec fn key_held(m: KeyRun) -> Option<HeldKey> {
    match m.phase {
        KeyPhase::Holding { key } => Some(key),
        KeyPhase::Releasing { key, .. } => Some(key),
        _ => None,
    }
}

/// Keys, and one more that is held, if there is one.
pub open spec fn and_held(keys: Seq<HeldKey>, held: Option<HeldKey>) -> Seq<HeldKey> {
    match held {
        Some(key) => keys.push(key),
        None => keys,
    }
}

/// Whatever happens, every press that was sent is followed by the attempt to
/// send its release, with the same code and to the same target, before anything
/// else is sent or the run ends.
pub proof fn lemma_every_press_is_released(max_loops: i32, events: Seq<KeyRunEvent>)
    ensures
        ({
            let start = key_run_start(max_loops);
            pressed_keys(start, events) == and_held(
                released_keys(start, events),
                key_held(key_run_after(start, events)),
            )
        }),
    decreases events.len(),
{
    if events.len() > 0 {
        lemma_every_press_is_released(max_loops, events.drop_last());
    }
}

/// A stop while a key is held leads to the release of that key, not past it.
pub proof fn lemma_stop_while_held_releases(m: KeyRun, key: HeldKey, stopped: bool)
    requires
        m.phase == (KeyPhase::Holding { key }),
    ensures
        key_run_step(m, KeyRunEvent::Waited { stopped }).phase == (KeyPhase::Releasing {
            key,
            stopped,
        }),
        ({
            let released = key_run_step(
                key_run_step(m, KeyRunEvent::Waited { stopped: true }),
                KeyRunEvent::Released { ok: true },
            );
            released.phase == KeyPhase::Ended(KeyEnd::Stopped)
        }),
{
}

/// After a stop before a press nothing is sent any more, whatever happens.
pub proof fn lemma_stop_before_press_sends_nothing(m: KeyRun, events: Seq<KeyRunEvent>)
    requires
        m.phase is BeforePress,
        events.len() > 0,
        events[0] == (KeyRunEvent::Waited { stopped: true }),
    ensures
        key_run_after(m, events).phase == KeyPhase::Ended(KeyEnd::Stopped),
        pressed_keys(m, events) == Seq::<HeldKey>::empty(),
        released_keys(m, events) == Seq::<HeldKey>::empty(),
    decreases events.len(),
{
    reveal_with_fuel(key_run_after, 2);
    reveal_with_fuel(pressed_keys, 2);
    reveal_with_fuel(released_keys, 2);
    if events.len() > 1 {
        assert(events.drop_last()[0] == events[0]);
        lemma_stop_before_press_sends_nothing(m, events.drop_last());
    }
}

/// Whether an event answers what the run of a key is at: a wait is over, a press
/// was tried, or a release was.
pub open spec fn answers(m: KeyRun, e: KeyRunEvent) -> bool {
    match m.phase {
        KeyPhase::Pressing => e is Pressed,
        KeyPhase::Releasing { .. } => e is Released,
        KeyPhase::Ended(_) => false,
        _ => e is Waited,
    }
}

/// A stop during any wait in which no key is held ends the run of the key at
/// once, without another round; while a key is held, it ends it after the one
/// release, or where that fails after one more wait at the latest.
pub proof fn lemma_stop_ends_key_run(m: KeyRun, ok: bool)
    ensures
        ({
            let stop = KeyRunEvent::Waited { stopped: true };
            let once = key_run_step(m, stop);
            let twice = key_run_step(once, KeyRunEvent::Released { ok });
            let thrice = key_run_step(twice, stop);
            &&& m.phase is BeforePress || m.phase is Interval || m.phase is Recovery ==> once.phase
                == KeyPhase::Ended(KeyEnd::Stopped)
            &&& m.phase is Holding ==> {
                &&& once.phase is Releasing
                &&& ok ==> twice.phase == KeyPhase::Ended(KeyEnd::Stopped)
                &&& !ok && m.max_loops >= 0 ==> twice.phase == KeyPhase::Ended(KeyEnd::Failed)
                &&& !ok && m.max_loops < 0 ==> thrice.phase == KeyPhase::Ended(KeyEnd::Stopped)
            }
            &&& once.completed == m.completed && once.max_loops == m.max_loops
            &&& twice.completed == m.completed && thrice.completed == m.completed
        }),
{
}

/// Once every wait tells of the stop, a run ends with the fourth answer at the
/// latest, whatever it was at and whatever can be sent.
pub proof fn lemma_stopped_run_ends_soon(m: KeyRun, events: Seq<KeyRunEvent>)
    requires
        events.len() == 4,
        forall|i: int|
            0 <= i < 4 && (#[trigger] events[i]) is Waited ==> events[i] == (KeyRunEvent::Waited {
                stopped: true,
            }),
        forall|i: int|
            0 <= i < 4 ==> answers(key_run_after(m, #[trigger] events.take(i)), events[i])
                || key_run_after(m, events.take(i)).phase is Ended,
    ensures
        key_run_after(m, events).phase is Ended,
{
    reveal_with_fuel(key_run_after, 5);
    assert(events.take(0) =~= Seq::empty());
    assert(events.take(1).drop_last() =~= events.take(0));
    assert(events.take(2).drop_last() =~= events.take(1));
    assert(events.take(3).drop_last() =~= events.take(2));
    assert(events.drop_last() =~= events.take(3));
    assert(events.take(1).last() == events[0]);
    assert(events.take(2).last() == events[1]);
    assert(events.take(3).last() == events[2]);
    let a = key_run_after(m, events.take(0));
    let b = key_run_after(m, events.take(1));
    let c = key_run_after(m, events.take(2));
    let d = key_run_after(m, events.take(3));
    assert(a == m);
    assert(b == key_run_step(a, events[0]));
    assert(c == key_run_step(b, events[1]));
    assert(d == key_run_step(c, events[2]));
    assert(answers(a, events[0]) || a.phase is Ended);
    assert(answers(b, events[1]) || b.phase is Ended);
    assert(answers(c, events[2]) || c.phase is Ended);
    assert(answers(d, events[3]) || d.phase is Ended);
}

/// A run that has ended stays as it is, and so does any run upon an event that
/// answers nothing; every other event leads on.
pub proof fn lemma_key_run_goes_on(m: KeyRun, e: KeyRunEvent)
    ensures
        m.phase is Ended ==> key_run_step(m, e) == m,
        !answers(m, e) ==> key_run_step(m, e) == m,
        answers(m, e) ==> key_run_step(m, e).phase != m.phase,
        key_run_step(m, e).max_loops == m.max_loops,
        key_run_step(m, e).completed >= m.completed,
        key_run_step(m, e).completed > m.completed ==> m.phase is Interval,
{
}

/// A key that cannot be sent ends a run with a limit; a run without one waits
/// and begins the same round anew.
pub proof fn lemma_failure(m: KeyRun, key: HeldKey)
    ensures
        ({
            let pressed = key_run_step(m, KeyRunEvent::Pressed { key, ok: false });
            let released = key_run_step(m, KeyRunEvent::Released { ok: false });
            let again = KeyRunEvent::Waited { stopped: false };
            &&& m.phase is Pressing && m.max_loops >= 0 ==> pressed.phase == KeyPhase::Ended(
                KeyEnd::Failed,
            )
            &&& m.phase is Releasing && m.max_loops >= 0 ==> released.phase == KeyPhase::Ended(
                KeyEnd::Failed,
            )
            &&& m.phase is Pressing && m.max_loops < 0 ==> pressed.phase is Recovery
                && key_run_step(pressed, again) == (KeyRun { phase: KeyPhase::BeforePress, ..m })
            &&& m.phase is Releasing && m.max_loops < 0 ==> released.phase is Recovery
                && key_run_step(released, again) == (KeyRun { phase: KeyPhase::BeforePress, ..m })
        }),
{
}

/// A key with a limit is pressed that many times and not more, and its run is
/// complete exactly then.  A key without a limit is never done by itself.
pub proof fn lemma_key_run_counts(max_loops: i32, events: Seq<KeyRunEvent>)
    requires
        max_loops != 0,
    ensures
        ({
            let start = key_run_start(max_loops);
            let m = key_run_after(start, events);
            let count = pressed_keys(start, events).len();
            &&& m.max_loops == max_loops
            &&& max_loops < 0 ==> m.phase != KeyPhase::Ended(KeyEnd::Completed)
            &&& max_loops > 0 ==> {
                &&& m.completed <= count <= max_loops
                &&& m.phase == KeyPhase::Ended(KeyEnd::Completed) <==> m.completed == max_loops
                &&& m.phase == KeyPhase::Ended(KeyEnd::Completed) ==> count == max_loops
                &&& !(m.phase is Recovery)
                &&& key_held(m) is Some || m.phase is Interval ==> count == m.completed + 1
                &&& m.phase is BeforePress || m.phase is Pressing ==> count == m.completed
            }
        }),
    decreases events.len(),
{
    if events.len() > 0 {
        lemma_key_run_counts(max_loops, events.drop_last());
    }
}

/// The events of one undisturbed round.
pub open spec fn undisturbed_round(key: HeldKey) -> Seq<KeyRunEvent> {
    seq![
        KeyRunEvent::Waited { stopped: false },
        KeyRunEvent::Pressed { key, ok: true },
        KeyRunEvent::Waited { stopped: false },
        KeyRunEvent::Released { ok: true },
        KeyRunEvent::Waited { stopped: false },
    ]
}

/// An undisturbed round is one press and its release, and counts as one.
pub proof fn lemma_undisturbed_round(m: KeyRun, key: HeldKey)
    requires
        m.phase is BeforePress,
        m.completed < u32::MAX,
    ensures
        key_run_after(m, undisturbed_round(key)) == (KeyRun {
            completed: (m.completed + 1) as u32,
            phase: if limit_reached(m.max_loops, (m.completed + 1) as u32) {
                KeyPhase::Ended(KeyEnd::Completed)
            } else {
                KeyPhase::BeforePress
            },
            ..m
        }),
        pressed_keys(m, undisturbed_round(key)) == seq![key],
        released_keys(m, undisturbed_round(key)) == seq![key],
{
    reveal_with_fuel(key_run_after, 6);
    reveal_with_fuel(pressed_keys, 6);
    reveal_with_fuel(released_keys, 6);
    let e = undisturbed_round(key);
    assert(e.drop_last() =~= e.take(4));
    assert(e.take(4).drop_last() =~= e.take(3));
    assert(e.take(3).drop_last() =~= e.take(2));
    assert(e.take(2).drop_last() =~= e.take(1));
    assert(e.take(1).drop_last() =~= e.take(0));
}

// ---------------------------------------------------------------------------
// The run of all keys in order
// ---------------------------------------------------------------------------
/// What a run in order is at, and so what is to be done next.
#[derive(Debug, Clone, Copy, PartialEq, Eq, Structural)]
pub enum SequencePhase {
    /// Wait before the press.
    BeforePress,
    /// Send the press.
    Pressing,
    /// Wait while the key is held.
    Holding { key: HeldKey },
    /// Send the release of the key that is held; how the wait before it ended.
    Releasing { key: HeldKey, control: Control },
    /// Wait until the interval since the press is over.
    Interval,
    /// Nothing more.
    Ended(Control),
}

/// What came of what was done.
#[derive(Debug, Clone, Copy, PartialEq, Eq, Structural)]
pub enum SequenceEvent {
    Waited(Control),
    /// The press of a key was or was not sent.
    Pressed { key: HeldKey, ok: bool },
    /// The release was or was not sent.
    Released { ok: bool },
}

/// The run of all keys in order.
#[derive(Debug, Clone, Copy, PartialEq, Eq, Structural)]
pub struct SequenceRun {
    pub key_count: usize,
    pub max_loops: i32,
    /// The key that is being run, by its position among those of the run.
    pub position: usize,
    pub completed: u32,
    pub phase: SequencePhase,
}

/// A run in order is at one of its keys.
pub open spec fn sequence_valid(m: SequenceRun) -> bool {
    m.position < m.key_count
}

/// A run in order at its start.
pub open spec fn sequence_start(key_count: usize, max_loops: i32) -> SequenceRun {
    SequenceRun {
        key_count,
        max_loops,
        position: 0,
        completed: 0,
        phase: SequencePhase::BeforePress,
    }
}

/// A run in order after the interval of a key: at the next key, at the first one
/// of the next round, or complete.
pub open spec fn sequence_advanced(m: SequenceRun) -> SequenceRun {
    if m.position + 1 < m.key_count {
        SequenceRun {
            position: (m.position + 1) as usize,
            phase: SequencePhase::BeforePress,
            ..m
        }
    } else {
        SequenceRun {
            position: 0,
            completed: counted(m.completed),
            phase: if limit_reached(m.max_loops, counted(m.completed)) {
                SequencePhase::Ended(Control::Continue)
            } else {
                SequencePhase::BeforePress
            },
            ..m
        }
    }
}

/// A run in order after one event.  An event that does not answer what was to be
/// done changes nothing.
pub open spec fn sequence_step(m: SequenceRun, e: SequenceEvent) -> SequenceRun {
    match (m.phase, e) {
        (SequencePhase::BeforePress, SequenceEvent::Waited(control)) => SequenceRun {
            phase: if control == Control::Continue {
                SequencePhase::Pressing
            } else {
                SequencePhase::Ended(control)
            },
            ..m
        },
        (SequencePhase::Pressing, SequenceEvent::Pressed { key, ok }) => SequenceRun {
            phase: if ok {
                SequencePhase::Holding { key }
            } else {
                SequencePhase::Ended(Control::Stop)
            },
            ..m
        },
        (SequencePhase::Holding { key }, SequenceEvent::Waited(control)) => SequenceRun {
            phase: SequencePhase::Releasing { key, control },
            ..m
        },
        (SequencePhase::Releasing { control, .. }, SequenceEvent::Released { ok }) => SequenceRun {
            phase: if !ok {
                SequencePhase::Ended(Control::Stop)
            } else if control == Control::Continue {
                SequencePhase::Interval
            } else {
                SequencePhase::Ended(control)
            },
            ..m
        },
        (SequencePhase::Interval, SequenceEvent::Waited(control)) => if control
            == Control::Continue {
            sequence_advanced(m)
        } else {
            SequenceRun { phase: SequencePhase::Ended(control), ..m }
        },
        _ => m,
    }
}

impl SequenceRun {
    /// Starts a run of `key_count` keys in order.
    pub fn start(key_count: usize, max_loops: i32) -> (r: SequenceRun)
        requires
            key_count > 0,
        ensures
            r == sequence_start(key_count, max_loops),
            sequence_valid(r),
    {
        SequenceRun {
            key_count,
            max_loops,
            position: 0,
            completed: 0,
            phase: SequencePhase::BeforePress,
        }
    }

    /// Takes note of an event.
    pub fn step(&mut self, event: SequenceEvent)
        requires
            sequence_valid(*old(self)),
        ensures
            *final(self) == sequence_step(*old(self), event),
            sequence_valid(*final(self)),
    {
        match (self.phase, event) {
            (SequencePhase::BeforePress, SequenceEvent::Waited(control)) => {
                self.phase = if control == Control::Continue {
                    SequencePhase::Pressing
                } else {
                    SequencePhase::Ended(control)
                };
            },
            (SequencePhase::Pressing, SequenceEvent::Pressed { key, ok }) => {
                self.phase = if ok {
                    SequencePhase::Holding { key }
                } else {
                    SequencePhase::Ended(Control::Stop)
                };
            },
            (SequencePhase::Holding { key }, SequenceEvent::Waited(control)) => {
                self.phase = SequencePhase::Releasing { key, control };
            },
            (SequencePhase::Releasing { control, .. }, SequenceEvent::Released { ok }) => {
                self.phase = if !ok {
                    SequencePhase::Ended(Control::Stop)
                } else if control == Control::Continue {
                    SequencePhase::Interval
                } else {
                    SequencePhase::Ended(control)
                };
            },
            (SequencePhase::Interval, SequenceEvent::Waited(control)) => {
                if control != Control::Continue {
                    self.phase = SequencePhase::Ended(control);
                } else if self.position + 1 < self.key_count {
                    self.position = self.position + 1;
                    self.phase = SequencePhase::BeforePress;
                } else {
                    self.position = 0;
                    self.completed = self.completed.saturating_add(1);
                    self.phase = if reached_limit(self.max_loops, self.completed) {
                        SequencePhase::Ended(Control::Continue)
                    } else {
                        SequencePhase::BeforePress
                    };
                }
            },
            _ => {},
        }
    }
}

/// A run in order after a number of events.
pub open spec fn sequence_after(m: SequenceRun, events: Seq<SequenceEvent>) -> SequenceRun
    decreases events.len(),
{
    if events.len() == 0 {
        m
    } else {
        sequence_step(sequence_after(m, events.drop_last()), events.last())
    }
}

/// The presses that were sent in the course of the events, in order: the
/// position of each key in the run, and the key that it holds.
pub open spec fn sequence_presses(m: SequenceRun, events: Seq<SequenceEvent>) -> Seq<(int, HeldKey)>
    decreases events.len(),
{
    if events.len() == 0 {
        Seq::empty()
    } else {
        let before = sequence_after(m, events.drop_last());
        let earlier = sequence_presses(m, events.drop_last());
        match (before.phase, events.last()) {
            (SequencePhase::Pressing, SequenceEvent::Pressed { key, ok }) => if ok {
                earlier.push((before.position as int, key))
            } else {
                earlier
            },
            _ => earlier,
        }
    }
}

/// The releases that were attempted in the course of the events, in order.
pub open spec fn sequence_releases(m: SequenceRun, events: Seq<SequenceEvent>) -> Seq<
    (int, HeldKey),
>
    decreases events.len(),
{
    if events.len() == 0 {
        Seq::empty()
    } else {
        let before = sequence_after(m, events.drop_last());
        let earlier = sequence_releases(m, events.drop_last());
        match (before.phase, events.last()) {
            (SequencePhase::Releasing { key, .. }, SequenceEvent::Released { .. }) => earlier.push(
                (before.position as int, key),
            ),
            _ => earlier,
        }
    }
}

/// The key that was pressed and whose release is still to be sent.
pub open spec fn sequence_held(m: SequenceRun) -> Option<HeldKey> {
    match m.phase {
        SequencePhase::Holding { key } => Some(key),
        SequencePhase::Releasing { key, .. } => Some(key),
        _ => None,
    }
}

/// Whatever happens, every press that was sent is followed by the attempt to
/// send its release, with the same code and to the same target, before anything
/// else is sent or the run ends.
pub proof fn lemma_sequence_releases_every_press(
    key_count: usize,
    max_loops: i32,
    events: Seq<SequenceEvent>,
)
    ensures
        ({
            let start = sequence_start(key_count, max_loops);
            let m = sequence_after(start, events);
            sequence_presses(start, events) == match sequence_held(m) {
                Some(key) => sequence_releases(start, events).push((m.position as int, key)),
                None => sequence_releases(start, events),
            }
        }),
    decreases events.len(),
{
    if events.len() > 0 {
        lemma_sequence_releases_every_press(key_count, max_loops, events.drop_last());
    }
}

/// After a command that ends the run before a press nothing is sent any more,
/// whatever happens.
pub proof fn lemma_sequence_stopped_before_press_sends_nothing(
    m: SequenceRun,
    control: Control,
    events: Seq<SequenceEvent>,
)
    requires
        m.phase is BeforePress,
        control != Control::Continue,
        events.len() > 0,
        events[0] == SequenceEvent::Waited(control),
    ensures
        sequence_after(m, events).phase == SequencePhase::Ended(control),
        sequence_presses(m, events) == Seq::<(int, HeldKey)>::empty(),
        sequence_releases(m, events) == Seq::<(int, HeldKey)>::empty(),
    decreases events.len(),
{
    reveal_with_fuel(sequence_after, 2);
    reveal_with_fuel(sequence_presses, 2);
    reveal_with_fuel(sequence_releases, 2);
    if events.len() > 1 {
        assert(events.drop_last()[0] == events[0]);
        lemma_sequence_stopped_before_press_sends_nothing(m, control, events.drop_last());
    }
}

/// The presses sent so far by a run that has not ended, given its full rounds.
pub open spec fn presses_made(m: SequenceRun, rounds: nat) -> int {
    rounds * m.key_count + m.position + if sequence_held(m) is Some || m.phase is Interval {
        1int
    } else {
        0int
    }
}

proof fn lemma_sequence_progress(
    key_count: usize,
    max_loops: i32,
    events: Seq<SequenceEvent>,
) -> (rounds: nat)
    requires
        key_count > 0,
        max_loops != 0,
    ensures
        ({
            let start = sequence_start(key_count, max_loops);
            let m = sequence_after(start, events);
            let pressed = sequence_presses(start, events);
            &&& sequence_valid(m)
            &&& m.key_count == key_count
            &&& m.max_loops == max_loops
            &&& max_loops > 0 ==> rounds == m.completed && m.completed <= max_loops
            &&& max_loops > 0 && !(m.phase is Ended) ==> m.completed < max_loops
            &&& !(m.phase is Ended) ==> pressed.len() == presses_made(m, rounds)
            &&& m.phase == SequencePhase::Ended(Control::Continue) ==> m.position == 0
                && pressed.len() == rounds * key_count && max_loops > 0 && rounds == max_loops
            &&& forall|k: int|
                0 <= k < pressed.len() ==> (#[trigger] pressed[k]).0 == k % (key_count as int)
        }),
    decreases events.len(),
{
    let start = sequence_start(key_count, max_loops);
    if events.len() == 0 {
        assert(0 * key_count == 0) by (nonlinear_arith);
        0
    } else {
        let rest = events.drop_last();
        let before = sequence_after(start, rest);
        let rounds = lemma_sequence_progress(key_count, max_loops, rest);
        let n = key_count as int;
        if before.phase == SequencePhase::Pressing {
            let k = presses_made(before, rounds);
            assert(k == rounds * n + before.position);
            vstd::arithmetic::div_mod::lemma_fundamental_div_mod_converse(
                k,
                n,
                rounds as int,
                before.position as int,
            );
        }
        if before.phase is Interval && events.last() == SequenceEvent::Waited(Control::Continue)
            && before.position + 1 == key_count {
            assert((rounds + 1) * n == rounds * n + n) by (nonlinear_arith);
            rounds + 1
        } else {
            rounds
        }
    }
}

/// A run in order presses the keys one after the other, and begins again with
/// the first one after the last: the press number `k` is that of key `k` modulo
/// their number.
pub proof fn lemma_sequence_keeps_order(
    key_count: usize,
    max_loops: i32,
    events: Seq<SequenceEvent>,
    k: int,
)
    requires
        key_count > 0,
        max_loops != 0,
        0 <= k < sequence_presses(sequence_start(key_count, max_loops), events).len(),
    ensures
        sequence_presses(sequence_start(key_count, max_loops), events)[k].0 == k % (key_count as int),
{
    let rounds = lemma_sequence_progress(key_count, max_loops, events);
}

/// A run in order is complete after as many full rounds as were asked for, each
/// of which presses every key once.  Without a limit it is never complete.
pub proof fn lemma_sequence_completes(
    key_count: usize,
    max_loops: i32,
    events: Seq<SequenceEvent>,
)
    requires
        key_count > 0,
        max_loops != 0,
        sequence_after(sequence_start(key_count, max_loops), events).phase == SequencePhase::Ended(
            Control::Continue,
        ),
    ensures
        max_loops > 0,
        sequence_after(sequence_start(key_count, max_loops), events).completed == max_loops,
        sequence_presses(sequence_start(key_count, max_loops), events).len() == max_loops
            * key_count,
{
    let rounds = lemma_sequence_progress(key_count, max_loops, events);
}

/// A run in order ends at once when a key cannot be sent.
pub proof fn lemma_sequence_stops_on_failure(m: SequenceRun, key: HeldKey)
    ensures
        m.phase is Pressing ==> sequence_step(
            m,
            SequenceEvent::Pressed { key, ok: false },
        ).phase == SequencePhase::Ended(Control::Stop),
        m.phase is Releasing ==> sequence_step(m, SequenceEvent::Released { ok: false }).phase
            == SequencePhase::Ended(Control::Stop),
{
}

/// The events of one undisturbed turn of a key.
pub open spec fn undisturbed_turn(key: HeldKey) -> Seq<SequenceEvent> {
    seq![
        SequenceEvent::Waited(Control::Continue),
        SequenceEvent::Pressed { key, ok: true },
        SequenceEvent::Waited(Control::Continue),
        SequenceEvent::Released { ok: true },
        SequenceEvent::Waited(Control::Continue),
    ]
}

/// An undisturbed turn is one press and its release.  The next key follows, or
/// after the last one the first again, which counts one round; with as many
/// rounds as were asked for the run is complete.
pub proof fn lemma_undisturbed_turn(m: SequenceRun, key: HeldKey)
    requires
        sequence_valid(m),
        m.phase is BeforePress,
        m.completed < u32::MAX,
    ensures
        ({
            let after = sequence_after(m, undisturbed_turn(key));
            &&& sequence_presses(m, undisturbed_turn(key)) == seq![(m.position as int, key)]
            &&& sequence_releases(m, undisturbed_turn(key)) == seq![(m.position as int, key)]
            &&& after.position == (m.position + 1) % (m.key_count as int)
            &&& m.position + 1 < m.key_count ==> after.completed == m.completed && after.phase
                is BeforePress
            &&& m.position + 1 == m.key_count ==> {
                &&& after.completed == m.completed + 1
                &&& m.max_loops >= 0 && m.completed + 1 >= m.max_loops ==> after.phase
                    == SequencePhase::Ended(Control::Continue)
                &&& m.max_loops < 0 || m.completed + 1 < m.max_loops ==> after.phase is BeforePress
            }
            &&& after.key_count == m.key_count
            &&& after.max_loops == m.max_loops
        }),
{
    reveal_with_fuel(sequence_after, 6);
    reveal_with_fuel(sequence_presses, 6);
    reveal_with_fuel(sequence_releases, 6);
    let e = undisturbed_turn(key);
    assert(e.drop_last() =~= e.take(4));
    assert(e.take(4).drop_last() =~= e.take(3));
    assert(e.take(3).drop_last() =~= e.take(2));
    assert(e.take(2).drop_last() =~= e.take(1));
    assert(e.take(1).drop_last() =~= e.take(0));
    if m.position + 1 == m.key_count {
        assert((m.position + 1) % (m.key_count as int) == 0) by (nonlinear_arith)
            requires
                m.position + 1 == m.key_count,
        ;
    } else {
        assert((m.position + 1) % (m.key_count as int) == m.position + 1) by (nonlinear_arith)
            requires
                0 <= m.position + 1 < m.key_count,
        ;
    }
}

/// A command that ends the run does so at once where no key is held, and after
/// the release of the key where one is; nothing is counted.
pub proof fn lemma_command_ends_sequence(m: SequenceRun, control: Control)
    requires
        control != Control::Continue,
    ensures
        ({
            let once = sequence_step(m, SequenceEvent::Waited(control));
            let twice = sequence_step(once, SequenceEvent::Released { ok: true });
            &&& m.phase is BeforePress || m.phase is Interval ==> once.phase
                == SequencePhase::Ended(control)
            &&& m.phase is Holding ==> once.phase is Releasing && twice.phase
                == SequencePhase::Ended(control)
            &&& once.completed == m.completed && twice.completed == m.completed
            &&& once.position == m.position && twice.position == m.position
        }),
{
}

/// A run that has ended stays as it is, and an event that does not answer what
/// the run is at changes nothing.
pub proof fn lemma_sequence_goes_on(m: SequenceRun, e: SequenceEvent)
    ensures
        m.phase is Ended ==> sequence_step(m, e) == m,
        m.phase is Pressing && !(e is Pressed) ==> sequence_step(m, e) == m,
        m.phase is Releasing && !(e is Released) ==> sequence_step(m, e) == m,
        (m.phase is BeforePress || m.phase is Holding || m.phase is Interval) && !(e is Waited)
            ==> sequence_step(m, e) == m,
        sequence_step(m, e).key_count == m.key_count,
        sequence_step(m, e).max_loops == m.max_loops,
{
}

// ---------------------------------------------------------------------------
// The keys that run on their own, together
// ---------------------------------------------------------------------------
/// What the supervisor of the keys that run on their own is told.
#[derive(Debug, Clone, Copy, PartialEq, Eq, Structural)]
pub enum SupervisorEvent {
    /// The run of one key has ended.
    KeyEnded,
    /// All runs have ended.
    AllEnded,
    /// What came of waiting for a command.
    Waited(CommandEvent),
}

/// The number of keys that still run, and how the whole run ends, if it does.
pub open spec fn supervised(remaining: usize, event: SupervisorEvent) -> (usize, Option<Control>) {
    match event {
        SupervisorEvent::KeyEnded => {
            let left = if remaining == 0 {
                0usize
            } else {
                (remaining - 1) as usize
            };
            (
                left,
                if left == 0 {
                    Some(Control::Continue)
                } else {
                    None
                },
            )
        },
        SupervisorEvent::AllEnded => (0, Some(Control::Continue)),
        SupervisorEvent::Waited(waited) => (
            remaining,
            if control_of(waited) == Control::Continue {
                None
            } else {
                Some(control_of(waited))
            },
        ),
    }
}

/// Takes note of an event while keys run on their own: gives how the whole run
/// ends, if it does.
pub fn supervise(remaining: &mut usize, status: &mut EngineStatus, event: SupervisorEvent) -> (r:
    Option<Control>)
    ensures
        (*final(remaining), r) == supervised(*old(remaining), event),
        final(status)@ == if r == Some(Control::Stop) {
            (StatusModel { running: false, status: "已停止"@, ..old(status)@ })
        } else {
            old(status)@
        },
{
    match event {
        SupervisorEvent::KeyEnded => {
            *remaining = remaining.saturating_sub(1);
            if *remaining == 0 {
                Some(Control::Continue)
            } else {
                None
            }
        },
        SupervisorEvent::AllEnded => {
            *remaining = 0;
            Some(Control::Continue)
        },
        SupervisorEvent::Waited(waited) => {
            let control = status.after_wait(waited);
            if control == Control::Continue {
                None
            } else {
                Some(control)
            }
        },
    }
}

/// The number of keys that still run after a number of events, and how the whole
/// run ended, if it did: with the first event that ends it.
pub open spec fn supervision(keys: usize, events: Seq<SupervisorEvent>) -> (
    usize,
    Option<Control>,
)
    decreases events.len(),
{
    if events.len() == 0 {
        (keys, None)
    } else {
        let before = supervision(keys, events.drop_last());
        if before.1 is Some {
            before
        } else {
            supervised(before.0, events.last())
        }
    }
}

/// How many of the events tell of a key whose run has ended.
pub open spec fn keys_ended(events: Seq<SupervisorEvent>) -> nat
    decreases events.len(),
{
    if events.len() == 0 {
        0
    } else {
        keys_ended(events.drop_last()) + if events.last() is KeyEnded {
            1nat
        } else {
            0nat
        }
    }
}

/// Without a command that ends it, a run of keys on their own goes on until the
/// last of them has ended, and is then complete: not before, and not later.
pub proof fn lemma_supervisor_waits_for_every_key(keys: usize, events: Seq<SupervisorEvent>)
    requires
        keys >= 1,
        forall|i: int|
            0 <= i < events.len() ==> (#[trigger] events[i]) is KeyEnded || events[i]
                == SupervisorEvent::Waited(CommandEvent::Timeout) || events[i]
                == SupervisorEvent::Waited(CommandEvent::Command(AppCommand::Start)),
    ensures
        keys_ended(events) < keys ==> supervision(keys, events) == (
            (keys - keys_ended(events)) as usize,
            None::<Control>,
        ),
        keys_ended(events) >= keys ==> supervision(keys, events) == (
            0usize,
            Some(Control::Continue),
        ),
    decreases events.len(),
{
    if events.len() > 0 {
        lemma_supervisor_waits_for_every_key(keys, events.drop_last());
    }
}

/// A command that ends a run does so whatever number of keys still runs, and
/// none of them counts as ended by it.
pub proof fn lemma_supervisor_obeys(remaining: usize)
    ensures
        supervised(remaining, SupervisorEvent::Waited(CommandEvent::Command(AppCommand::Stop))) == (
            remaining,
            Some(Control::Stop),
        ),
        supervised(
            remaining,
            SupervisorEvent::Waited(CommandEvent::Command(AppCommand::ToggleRunning)),
        ) == (remaining, Some(Control::Stop)),
        supervised(remaining, SupervisorEvent::Waited(CommandEvent::Command(AppCommand::Exit))) == (
            remaining,
            Some(Control::Exit),
        ),
        supervised(remaining, SupervisorEvent::Waited(CommandEvent::Disconnected)) == (
            remaining,
            Some(Control::Exit),
        ),
        supervised(remaining, SupervisorEvent::AllEnded).1 == Some(Control::Continue),
{
}

// ---------------------------------------------------------------------------
// Waiting with high precision
// ---------------------------------------------------------------------------
/// The end of a wait is not slept through but watched for, for this many
/// microseconds.
pub const WATCHED_MICROSECONDS: u64 = 500;

/// The time of a counter that ticks `frequency` times a second, in nanoseconds.
pub open spec fn nanoseconds_of(ticks: i64, frequency: i64) -> int {
    ticks as int * 1_000_000_000 / frequency as int
}

/// The time of a counter that ticks `frequency` times a second, in nanoseconds,
/// modulo what fits into 64 bits.
pub fn counter_nanoseconds(ticks: i64, frequency: i64) -> (r: u64)
    requires
        ticks >= 0,
        frequency >= 1,
    ensures
        r as int == nanoseconds_of(ticks, frequency) % 0x1_0000_0000_0000_0000,
{
    let nanoseconds: u128 = ticks as u128 * 1_000_000_000 / frequency as u128;
    let r: u64 = #[verifier::truncate] (nanoseconds as u64);
    assert(nanoseconds as u64 == nanoseconds % 0x1_0000_0000_0000_0000) by (bit_vector);
    r
}

/// A later tick is never an earlier time.
pub proof fn lemma_counter_is_monotonic(earlier: i64, later: i64, frequency: i64)
    requires
        0 <= earlier <= later,
        frequency >= 1,
    ensures
        nanoseconds_of(earlier, frequency) <= nanoseconds_of(later, frequency),
{
    vstd::arithmetic::div_mod::lemma_div_is_ordered(
        earlier as int * 1_000_000_000,
        later as int * 1_000_000_000,
        frequency as int,
    );
}

/// The time in nanoseconds is the number of seconds that have passed, a billion
/// times, rounded down.
pub proof fn lemma_counter_time(ticks: i64, frequency: i64, seconds: i64)
    requires
        ticks >= 0,
        frequency >= 1,
        seconds >= 0,
        seconds * frequency <= i64::MAX,
    ensures
        nanoseconds_of(ticks, frequency) * frequency <= ticks * 1_000_000_000,
        ticks * 1_000_000_000 < (nanoseconds_of(ticks, frequency) + 1) * frequency,
        nanoseconds_of((seconds * frequency) as i64, frequency) == seconds * 1_000_000_000,
{
    let n = ticks as int * 1_000_000_000;
    let f = frequency as int;
    vstd::arithmetic::div_mod::lemma_fundamental_div_mod(n, f);
    vstd::arithmetic::div_mod::lemma_mod_bound(n, f);
    assert((n / f) * f <= n && n < (n / f + 1) * f) by (nonlinear_arith)
        requires
            n == f * (n / f) + n % f,
            0 <= n % f < f,
    ;
    assert((seconds * frequency) * 1_000_000_000 == (seconds * 1_000_000_000) * f)
        by (nonlinear_arith)
        requires
            f == frequency,
    ;
    vstd::arithmetic::div_mod::lemma_div_by_multiple(seconds * 1_000_000_000, f);
}

/// A wait: when it ends, and how much of it can be slept through.
#[derive(Debug, Clone, Copy, PartialEq, Eq, Structural)]
pub struct WaitPlan {
    pub deadline_ns: u64,
    pub sleep_us: u64,
}

/// The plan for a wait that begins now; none for no wait at all.
pub fn plan_wait(now_ns: u64, duration_ms: u32) -> (r: Option<WaitPlan>)
    ensures
        r == if duration_ms == 0 {
            None::<WaitPlan>
        } else {
            Some(
                WaitPlan {
                    deadline_ns: if now_ns + duration_ms * 1_000_000 > u64::MAX {
                        u64::MAX
                    } else {
                        (now_ns + duration_ms * 1_000_000) as u64
                    },
                    sleep_us: (duration_ms * 1000 - WATCHED_MICROSECONDS) as u64,
                },
            )
        },
{
    if duration_ms == 0 {
        return None;
    }
    let duration: u64 = duration_ms as u64;
    Some(
        WaitPlan {
            deadline_ns: now_ns.saturating_add(duration * 1_000_000),
            sleep_us: duration * 1000 - WATCHED_MICROSECONDS,
        },
    )
}

/// Whether a watched wait is over: because it was stopped, because its time is
/// up, or not yet.
pub fn wait_result(stopped: bool, now_ns: u64, plan: &WaitPlan) -> (r: Option<bool>)
    ensures
        r == if stopped {
            Some(true)
        } else if now_ns >= plan.deadline_ns {
            Some(false)
        } else {
            None
        },
{
    if stopped {
        Some(true)
    } else if now_ns >= plan.deadline_ns {
        Some(false)
    } else {
        None
    }
}

/// A status tells that the scheduler runs from its start until it is stopped; a
/// start keeps the marks of the keys, a stop takes them all away, and a key that
/// could not be sent is told with the reason without stopping anything.
pub proof fn lemma_status(
    started: &mut EngineStatus,
    stopped: &mut EngineStatus,
    failed: &mut EngineStatus,
    message: &str,
    error: &str,
    i: int,
)
    requires
        call_ensures(EngineStatus::set_started, (started, message), ()),
        call_ensures(EngineStatus::set_stopped, (stopped, message), ()),
        call_ensures(EngineStatus::set_send_failed, (failed, message, error), ()),
    ensures
        final(started)@.running && final(started)@.status == message@,
        final(started)@.key_running == old(started)@.key_running,
        !final(stopped)@.running && final(stopped)@.status == message@,
        final(stopped)@.key_running.len() == old(stopped)@.key_running.len(),
        0 <= i < final(stopped)@.key_running.len() ==> !final(stopped)@.key_running[i],
        final(failed)@.running == old(failed)@.running,
        final(failed)@.key_running == old(failed)@.key_running,
        crate::text::occurs_in(final(failed)@.status, message@),
        crate::text::occurs_in(final(failed)@.status, error@),
{
    let none = Seq::<char>::empty();
    let (head, middle) = ("按键 ["@, "] 发送失败: "@);
    crate::text::lemma_occurrence(head, message@, middle + error@, none);
    assert(head + message@ + (middle + error@) =~= head + message@ + middle + error@);
    crate::text::lemma_occurrence(head + message@ + middle, error@, none, none);
    assert(head + message@ + middle + error@ + none =~= head + message@ + middle + error@);
}

/// Marking a key changes the mark of that key and of no other, and nothing else of
/// the status; there are twelve marks.
pub proof fn lemma_marking(s: &mut EngineStatus, index: usize, running: bool, other: int)
    requires
        call_ensures(EngineStatus::set_key_running, (s, index, running), ()),
    ensures
        final(s)@.key_running.len() == 12,
        index < 12 ==> final(s)@.key_running[index as int] == running,
        0 <= other < 12 && other != index && other < old(s)@.key_running.len()
            ==> final(s)@.key_running[other] == old(s)@.key_running[other],
        final(s)@.running == old(s)@.running,
        final(s)@.status == old(s)@.status,
{
}

/// However a run ends, the scheduler no longer runs and no key is marked.  Where
/// it came to its end that is told; where it was stopped the message of the run
/// gives way, but not one that tells a failure.
pub proof fn lemma_run_ends(s: &mut EngineStatus, control: Control, rest: Seq<char>, i: int)
    requires
        call_ensures(EngineStatus::finish_run, (s, control), ()),
    ensures
        !final(s)@.running,
        0 <= i < final(s)@.key_running.len() ==> !final(s)@.key_running[i],
        control is Continue ==> final(s)@.status == "已完成"@,
        control is Stop && old(s)@.status == "运行中"@ + rest ==> final(s)@.status == "已停止"@,
        control is Stop && !crate::text::begins_with(old(s)@.status, "运行中"@) ==> final(s)@.status
            == old(s)@.status,
        control is Exit ==> final(s)@.status == old(s)@.status,
{
    let none = Seq::<char>::empty();
    crate::text::lemma_occurrence(none, "运行中"@, rest, none);
    assert(none + "运行中"@ + rest =~= "运行中"@ + rest);
}

/// A wait that is stopped tells so and marks the scheduler as stopped; any other
/// leaves the status as it is.
pub proof fn lemma_after_wait(s: &mut EngineStatus, event: CommandEvent, r: Control)
    requires
        call_ensures(EngineStatus::after_wait, (s, event), r),
    ensures
        r == Control::Stop ==> !final(s)@.running && final(s)@.status == "已停止"@
            && final(s)@.key_running == old(s)@.key_running,
        r != Control::Stop ==> final(s)@ == old(s)@,
        event == CommandEvent::Command(AppCommand::Stop) || event == CommandEvent::Command(
            AppCommand::ToggleRunning,
        ) ==> r == Control::Stop,
        event == CommandEvent::Command(AppCommand::Exit) || event is Disconnected ==> r
            == Control::Exit,
{
}

/// A wait is over as many milliseconds after its plan as it was to last, not
/// sooner and not later, or as soon as it is stopped.  All of it but the last half
/// millisecond is slept through.
pub proof fn lemma_wait(
    now: u64,
    duration: u32,
    plan: Option<WaitPlan>,
    stopped: bool,
    later: u64,
    r: Option<bool>,
)
    requires
        call_ensures(plan_wait, (now, duration), plan),
        plan matches Some(wait) ==> call_ensures(wait_result, (stopped, later, &wait), r),
    ensures
        plan is None <==> duration == 0,
        plan matches Some(wait) ==> {
            &&& wait.sleep_us + 500 == duration * 1000
            &&& stopped ==> r == Some(true)
            &&& !stopped && later >= now + duration * 1_000_000 ==> r == Some(false)
            &&& !stopped && later < now + duration * 1_000_000 && now + duration * 1_000_000
                <= u64::MAX ==> r is None
            &&& !stopped && later == u64::MAX ==> r == Some(false)
        },
{
}

/// The range around the interval of a key is its own with that of the profile
/// added, up to an hour.
pub proof fn lemma_range_of_key(config: &Config, key: &RunKey, r: u32)
    requires
        call_ensures(combined_range, (config, key), r),
    ensures
        r <= 3_600_000,
        r < 3_600_000 ==> r == key.config.random_range + config.global_random_delay,
        r == 3_600_000 ==> key.config.random_range + config.global_random_delay >= 3_600_000,
{
}

} // verus!
