//! Starting the program when the user logs in.
//!
//! There are two ways: a shortcut in the startup folder of the user, and for a
//! program with administrator rights a scheduled task.  What the file system,
//! the registry and the task scheduler say is passed in; what they are to do is
//! given back.
use crate::paths::{file_name, parent_directory};
use crate::stealth::text_of_bytes;
use crate::store::join;
use crate::text::{
    concat, concat3, contains, eq_ignore_ascii_case, from_chars, is_ascii_alphanumeric,
    is_whitespace, nth_line, slice_chars, take_chars, to_chars, trim, trim_chars,
};
use vstd::prelude::*;

verus! {

/// The shortcut in the startup folder.
pub const STARTUP_LINK_NAME: &'static str = "AutoKey-Rust.lnk";

/// The argument with which the program is started at login.
pub const STARTUP_ARGUMENT: &'static str = "--autostart";

/// The folder of the scheduled task.
pub const TASK_PATH: &'static str = "\\";

/// How long the system may take to answer, in milliseconds.
pub const POWERSHELL_TIMEOUT_MS: u64 = 30_000;

/// How long an answer of the system is good for, in milliseconds.
pub const STATUS_CACHE_TTL_MS: u64 = 30_000;

/// The values under which earlier versions were started.
pub const CURRENT_RUN_VALUE: &'static str = "AutoKeyRust";

pub const LEGACY_RUST_RUN_VALUE: &'static str = "{A1B2C3D4-E5F6-7890-ABCD-EF1234567890}";

pub const LEGACY_CSHARP_RUN_VALUE: &'static str = "AutoKey";

// ---------------------------------------------------------------------------
// Status
// ---------------------------------------------------------------------------
/// How the program is started at login.
#[derive(Debug, Clone, Copy, PartialEq, Eq, Structural)]
pub enum AutostartBackend {
    StartupShortcut,
    ElevatedScheduledTask,
}

/// Whether and how the program is started at login.
#[derive(Debug, PartialEq, Eq)]
pub struct AutostartStatus {
    pub supported: bool,
    pub enabled: bool,
    pub link_path: String,
    pub target_path: String,
    pub arguments: String,
    pub working_dir: String,
    pub backend: Option<AutostartBackend>,
}

/// The mathematical content of an [`AutostartStatus`].
#[verifier::ext_equal]
pub struct AutostartModel {
    pub supported: bool,
    pub enabled: bool,
    pub link_path: Seq<char>,
    pub target_path: Seq<char>,
    pub arguments: Seq<char>,
    pub working_dir: Seq<char>,
    pub backend: Option<AutostartBackend>,
}

impl View for AutostartStatus {
    type V = AutostartModel;

    open spec fn view(&self) -> AutostartModel {
        AutostartModel {
            supported: self.supported,
            enabled: self.enabled,
            link_path: self.link_path@,
            target_path: self.target_path@,
            arguments: self.arguments@,
            working_dir: self.working_dir@,
            backend: self.backend,
        }
    }
}

impl Clone for AutostartStatus {
    fn clone(&self) -> (r: AutostartStatus)
        ensures
            r@ == self@,
    {
        AutostartStatus {
            supported: self.supported,
            enabled: self.enabled,
            link_path: self.link_path.clone(),
            target_path: self.target_path.clone(),
            arguments: self.arguments.clone(),
            working_dir: self.working_dir.clone(),
            backend: self.backend,
        }
    }
}

/// A shortcut as it was found.  The paths are given in the form in which the
/// system resolves them.
#[derive(Debug)]
pub struct ShortcutInfo {
    pub target: String,
    pub arguments: String,
    pub working_dir: String,
}

/// A scheduled task as it was found.  The paths are given in the form in which
/// the system resolves them.
#[derive(Debug)]
pub struct ScheduledTaskInfo {
    pub target: String,
    pub arguments: String,
    pub working_dir: String,
    pub run_level: String,
    pub state: String,
}

/// What starting at login is to do.
#[derive(Debug)]
pub struct StartupManager {
    pub link_path: String,
    pub target_path: String,
    pub arguments: String,
    pub working_dir: String,
    pub task_name: String,
    /// The paths of the program and its directory in the form in which the
    /// system resolves them.
    pub resolved_target: String,
    pub resolved_working_dir: String,
}

/// What the system says about starting at login.
#[derive(Debug)]
pub struct AutostartObservation {
    pub supported: bool,
    pub shortcut: Option<ShortcutInfo>,
    /// The user switched the shortcut off in the settings.
    pub disabled_by_windows: bool,
    pub task: Option<ScheduledTaskInfo>,
}

/// Whether two resolved paths are the same, regardless of case.
pub open spec fn same_path_as(left: Seq<char>, right: Seq<char>) -> bool {
    crate::text::same_ignoring_case(left, right)
}

/// Whether two resolved paths are the same, regardless of case.
pub fn same_path(left: &str, right: &str) -> (r: bool)
    ensures
        r == same_path_as(left@, right@),
{
    eq_ignore_ascii_case(left, right)
}

/// Whether a start does what it is to do: the program, its argument and its
/// directory.
pub open spec fn starts_program(
    m: StartupManager,
    target: Seq<char>,
    arguments: Seq<char>,
    working_dir: Seq<char>,
) -> bool {
    &&& same_path_as(target, m.resolved_target@)
    &&& crate::text::same_ignoring_case(crate::text::trimmed(arguments), m.arguments@)
    &&& same_path_as(working_dir, m.resolved_working_dir@)
}

/// Whether the shortcut starts the program.
pub open spec fn shortcut_works(m: StartupManager, o: AutostartObservation) -> bool {
    !o.disabled_by_windows && match o.shortcut {
        Some(info) => starts_program(m, info.target@, info.arguments@, info.working_dir@),
        None => false,
    }
}

/// Whether the scheduled task starts the program, with the highest rights.
pub open spec fn task_works(m: StartupManager, o: AutostartObservation) -> bool {
    match o.task {
        Some(task) => {
            &&& starts_program(m, task.target@, task.arguments@, task.working_dir@)
            &&& crate::text::same_ignoring_case(task.run_level@, "Highest"@)
            &&& !crate::text::same_ignoring_case(task.state@, "Disabled"@)
        },
        None => false,
    }
}

/// How the program is started at login, if it is; the task comes first.
pub open spec fn backend_of(m: StartupManager, o: AutostartObservation) -> Option<
    AutostartBackend,
> {
    if task_works(m, o) {
        Some(AutostartBackend::ElevatedScheduledTask)
    } else if shortcut_works(m, o) {
        Some(AutostartBackend::StartupShortcut)
    } else {
        None
    }
}

/// The status that follows from what the system says.
pub open spec fn status_of(m: StartupManager, o: AutostartObservation) -> AutostartModel {
    AutostartModel {
        supported: o.supported,
        enabled: backend_of(m, o) is Some,
        link_path: m.link_path@,
        target_path: m.target_path@,
        arguments: m.arguments@,
        working_dir: m.working_dir@,
        backend: backend_of(m, o),
    }
}

impl StartupManager {
    fn starts(&self, target: &str, arguments: &str, working_dir: &str) -> (r: bool)
        ensures
            r == starts_program(*self, target@, arguments@, working_dir@),
    {
        same_path(target, &self.resolved_target) && eq_ignore_ascii_case(
            &trim(arguments),
            &self.arguments,
        ) && same_path(working_dir, &self.resolved_working_dir)
    }

    /// The status that follows from what the system says.
    pub fn status_from_info(&self, seen: &AutostartObservation) -> (r: AutostartStatus)
        ensures
            r@ == status_of(*self, *seen),
    {
        let shortcut_enabled = !seen.disabled_by_windows && match &seen.shortcut {
            Some(info) => self.starts(&info.target, &info.arguments, &info.working_dir),
            None => false,
        };
        let task_enabled = match &seen.task {
            Some(task) => self.starts(&task.target, &task.arguments, &task.working_dir)
                && eq_ignore_ascii_case(&task.run_level, "Highest") && !eq_ignore_ascii_case(
                &task.state,
                "Disabled",
            ),
            None => false,
        };
        let backend = if task_enabled {
            Some(AutostartBackend::ElevatedScheduledTask)
        } else if shortcut_enabled {
            Some(AutostartBackend::StartupShortcut)
        } else {
            None
        };
        AutostartStatus {
            supported: seen.supported,
            enabled: backend.is_some(),
            link_path: self.link_path.clone(),
            target_path: self.target_path.clone(),
            arguments: self.arguments.clone(),
            working_dir: self.working_dir.clone(),
            backend,
        }
    }
}

/// Whether and how the program is started at login, by what the system says.
pub fn status(manager: &StartupManager, seen: &AutostartObservation) -> (r: AutostartStatus)
    ensures
        r@ == status_of(*manager, *seen),
{
    manager.status_from_info(seen)
}

/// The status where nothing can be said.
pub open spec fn unsupported() -> AutostartModel {
    AutostartModel {
        supported: false,
        enabled: false,
        link_path: Seq::empty(),
        target_path: Seq::empty(),
        arguments: STARTUP_ARGUMENT@,
        working_dir: Seq::empty(),
        backend: None,
    }
}

/// The status where nothing can be said.
pub fn unsupported_status() -> (r: AutostartStatus)
    ensures
        r@ == unsupported(),
{
    AutostartStatus {
        supported: false,
        enabled: false,
        link_path: String::new(),
        target_path: String::new(),
        arguments: STARTUP_ARGUMENT.to_owned(),
        working_dir: String::new(),
        backend: None,
    }
}

/// A shortcut that the user switched off, or one that starts something else, does
/// not count.
pub proof fn lemma_status_needs_all(m: StartupManager, o: AutostartObservation)
    ensures
        status_of(m, o).enabled <==> task_works(m, o) || shortcut_works(m, o),
        o.disabled_by_windows && o.task is None ==> !status_of(m, o).enabled,
        o.shortcut is None && o.task is None ==> !status_of(m, o).enabled,
{
}

// ---------------------------------------------------------------------------
// The last answer
// ---------------------------------------------------------------------------
/// The last answer of the system and when it was given.
pub struct StatusCache {
    answer: Option<(u64, AutostartStatus)>,
}

/// The mathematical content of a [`StatusCache`]: the time and the answer.
pub struct CacheModel {
    pub checked_at_ms: u64,
    pub status: AutostartModel,
}

impl View for StatusCache {
    type V = Option<CacheModel>;

    closed spec fn view(&self) -> Option<CacheModel> {
        match self.answer {
            Some(answer) => Some(CacheModel { checked_at_ms: answer.0, status: answer.1@ }),
            None => None,
        }
    }
}

/// The answer that is still good at a time, if there is one.
pub open spec fn fresh_answer(cache: Option<CacheModel>, now_ms: u64) -> Option<bool> {
    match cache {
        Some(answer) => if now_ms - answer.checked_at_ms < STATUS_CACHE_TTL_MS {
            Some(answer.status.enabled)
        } else {
            None
        },
        None => None,
    }
}

impl StatusCache {
    /// No answer yet.
    pub fn new() -> (r: StatusCache)
        ensures
            r@ is None,
    {
        StatusCache { answer: None }
    }

    fn fresh(&self, now_ms: u64) -> (r: Option<bool>)
        ensures
            r == fresh_answer(self@, now_ms),
    {
        match &self.answer {
            Some(answer) => if now_ms < answer.0 || now_ms - answer.0 < STATUS_CACHE_TTL_MS {
                Some(answer.1.enabled)
            } else {
                None
            },
            None => None,
        }
    }

    fn remember(&mut self, status: AutostartStatus, now_ms: u64)
        ensures
            final(self)@ == Some(CacheModel { checked_at_ms: now_ms, status: status@ }),
    {
        self.answer = Some((now_ms, status));
    }
}

/// The status that was read, or none where it could not be.
pub open spec fn known(status: Option<AutostartStatus>) -> AutostartModel {
    match status {
        Some(status) => status@,
        None => unsupported(),
    }
}

/// Whether the program is started at login, by the last answer as long as it is
/// good, and else by asking again.
///
/// `read` asks, and says when the answer came.  It is not called while the last
/// answer is good.
pub fn is_enabled<R: FnOnce() -> (Option<AutostartStatus>, u64)>(
    cache: &mut StatusCache,
    now_ms: u64,
    read: R,
) -> (r: bool)
    requires
        fresh_answer(old(cache)@, now_ms) is None ==> call_requires(read, ()),
    ensures
        match fresh_answer(old(cache)@, now_ms) {
            Some(enabled) => r == enabled && final(cache)@ == old(cache)@,
            None => exists|answer: (Option<AutostartStatus>, u64)|
                {
                    &&& #[trigger] call_ensures(read, (), answer)
                    &&& r == known(answer.0).enabled
                    &&& final(cache)@ == Some(
                        CacheModel { checked_at_ms: answer.1, status: known(answer.0) },
                    )
                },
        },
{
    if let Some(enabled) = cache.fresh(now_ms) {
        return enabled;
    }
    let (found, read_at_ms): (Option<AutostartStatus>, u64) = read();
    let status = match found {
        Some(status) => status,
        None => unsupported_status(),
    };
    let enabled: bool = status.enabled;
    cache.remember(status, read_at_ms);
    enabled
}

// ---------------------------------------------------------------------------
// Switching
// ---------------------------------------------------------------------------
/// How the program should be started, by whether it has administrator rights.
pub open spec fn backend_for(elevated: bool) -> AutostartBackend {
    if elevated {
        AutostartBackend::ElevatedScheduledTask
    } else {
        AutostartBackend::StartupShortcut
    }
}

/// How the program should be started, by whether it has administrator rights.
pub fn desired_backend(elevated: bool) -> (r: AutostartBackend)
    ensures
        r == backend_for(elevated),
{
    if elevated {
        AutostartBackend::ElevatedScheduledTask
    } else {
        AutostartBackend::StartupShortcut
    }
}

/// Whether the program has administrator rights: now, or whenever it is started,
/// because the compatibility settings of its file ask for them.
pub fn runs_elevated(is_admin: bool, compatibility_layers: &str) -> (r: bool)
    ensures
        r == (is_admin || crate::text::occurs_in(compatibility_layers@, "RUNASADMIN"@)),
{
    is_admin || contains(compatibility_layers, "RUNASADMIN")
}

/// What is done to switch starting at login on or off.  The entries of earlier
/// versions in the registry are removed before any of these.
#[derive(Debug, Clone, Copy, PartialEq, Eq, Structural)]
pub enum SwitchPlan {
    /// Nothing: it is as wanted.
    Keep,
    /// Remove the shortcut, then write the scheduled task.
    WriteTask,
    /// Write the shortcut, then allow it in the settings.
    WriteShortcut,
    /// Remove the shortcut, forget about it in the settings, and remove the
    /// scheduled task.
    RemoveAll,
}

/// What is done to switch starting at login on or off.
pub open spec fn switch_plan_of(
    enabled: bool,
    current: Option<AutostartBackend>,
    elevated: bool,
) -> SwitchPlan {
    if !enabled {
        SwitchPlan::RemoveAll
    } else if current == Some(backend_for(elevated)) || (!elevated && current == Some(
        AutostartBackend::ElevatedScheduledTask,
    )) {
        SwitchPlan::Keep
    } else if elevated {
        SwitchPlan::WriteTask
    } else {
        SwitchPlan::WriteShortcut
    }
}

/// What is done to switch starting at login on or off.
pub fn switch_plan(enabled: bool, current: Option<AutostartBackend>, elevated: bool) -> (r:
    SwitchPlan)
    ensures
        r == switch_plan_of(enabled, current, elevated),
{
    if !enabled {
        return SwitchPlan::RemoveAll;
    }
    let kept = match current {
        Some(backend) => backend == desired_backend(elevated) || (!elevated && backend
            == AutostartBackend::ElevatedScheduledTask),
        None => false,
    };
    if kept {
        SwitchPlan::Keep
    } else if elevated {
        SwitchPlan::WriteTask
    } else {
        SwitchPlan::WriteShortcut
    }
}

/// Without administrator rights a scheduled task is left alone, and with them
/// nothing is done only where the task is there.
pub proof fn lemma_switch_plan(current: Option<AutostartBackend>, elevated: bool)
    ensures
        !elevated && current == Some(AutostartBackend::ElevatedScheduledTask) ==> switch_plan_of(
            true,
            current,
            elevated,
        ) == SwitchPlan::Keep,
        elevated && switch_plan_of(true, current, elevated) == SwitchPlan::Keep ==> current == Some(
            AutostartBackend::ElevatedScheduledTask,
        ),
        current is None ==> switch_plan_of(true, current, elevated) != SwitchPlan::Keep,
{
}

/// The message for a switch that did not take effect.
pub open spec fn verification_message(s: AutostartModel) -> Seq<char> {
    "开机启动快捷方式写入后验证失败: link="@ + s.link_path + " target="@ + s.target_path + " args="@
        + s.arguments + " working_dir="@ + s.working_dir
}

/// Takes note of the status after a switch; an error where it is not as wanted.
pub fn set_enabled(
    cache: &mut StatusCache,
    enabled: bool,
    verified: AutostartStatus,
    now_ms: u64,
) -> (r: Result<AutostartStatus, String>)
    ensures
        match r {
            Ok(status) => {
                &&& verified@.enabled == enabled
                &&& status@ == verified@
                &&& final(cache)@ == Some(
                    CacheModel { checked_at_ms: now_ms, status: verified@ },
                )
            },
            Err(message) => {
                &&& verified@.enabled != enabled
                &&& message@ == verification_message(verified@)
                &&& final(cache)@ == old(cache)@
            },
        },
{
    if verified.enabled != enabled {
        let mut message = concat3(
            "开机启动快捷方式写入后验证失败: link=",
            &verified.link_path,
            " target=",
        );
        message = concat3(&message, &verified.target_path, " args=");
        message = concat3(&message, &verified.arguments, " working_dir=");
        message = concat(&message, &verified.working_dir);
        return Err(message);
    }
    let status = verified.clone();
    cache.remember(verified, now_ms);
    Ok(status)
}

/// Whether a shortcut that was found is to be removed: only one that starts this
/// program.
pub fn removes_shortcut(info: &Option<ShortcutInfo>, resolved_target: &str) -> (r: bool)
    ensures
        r == match *info {
            Some(info) => same_path_as(info.target@, resolved_target@),
            None => false,
        },
{
    match info {
        Some(info) => same_path(&info.target, resolved_target),
        None => false,
    }
}

// ---------------------------------------------------------------------------
// Paths and names
// ---------------------------------------------------------------------------
/// The shortcut in the startup folder of the user whose data are at `appdata`.
pub open spec fn startup_link_path_of(appdata: Seq<char>) -> Seq<char> {
    let menu = crate::store::joined(
        crate::store::joined(
            crate::store::joined(appdata, "Microsoft"@),
            "Windows"@,
        ),
        "Start Menu"@,
    );
    crate::store::joined(
        crate::store::joined(crate::store::joined(menu, "Programs"@), "Startup"@),
        STARTUP_LINK_NAME@,
    )
}

/// The shortcut in the startup folder of the user whose data are at `appdata`.
pub fn startup_link_path_from_appdata(appdata: &str) -> (r: String)
    ensures
        r@ == startup_link_path_of(appdata@),
{
    let menu = join(&join(&join(appdata, "Microsoft"), "Windows"), "Start Menu");
    join(&join(&join(&menu, "Programs"), "Startup"), STARTUP_LINK_NAME)
}

/// What is known of the program when it looks after starting at login.
#[derive(Debug)]
pub struct StartupEnvironment {
    /// A place for the user's data that takes the place of the usual one.
    pub app_data_root: Option<String>,
    /// The usual place for the user's data.
    pub app_data: Option<String>,
    /// The path of the program, if it is known.
    pub executable: Option<String>,
    pub user_domain: Option<String>,
    pub user_name: Option<String>,
    /// The paths of the program and its directory in the form in which the
    /// system resolves them.
    pub resolved_target: String,
    pub resolved_working_dir: String,
}

/// The characters that can stand in the name of a task.
pub open spec fn task_character(c: char) -> bool {
    crate::text::ascii_alphanumeric(c) || c == '-' || c == '_' || c == '.'
}

/// The characters of a text that can stand in the name of a task.
pub open spec fn task_characters_of(s: Seq<char>) -> Seq<char>
    decreases s.len(),
{
    if s.len() == 0 {
        Seq::empty()
    } else if task_character(s.last()) {
        task_characters_of(s.drop_last()).push(s.last())
    } else {
        task_characters_of(s.drop_last())
    }
}

/// The domain and the name of the user, as far as they are known, with an
/// underscore between them.
pub open spec fn user_identity(domain: Option<Seq<char>>, name: Option<Seq<char>>) -> Seq<char> {
    match (domain, name) {
        (Some(domain), Some(name)) => domain + "_"@ + name,
        (Some(domain), None) => domain,
        (None, Some(name)) => name,
        (None, None) => Seq::empty(),
    }
}

/// The name of the scheduled task of a user.
pub open spec fn task_name_of(domain: Option<Seq<char>>, name: Option<Seq<char>>) -> Seq<char> {
    let identity = crate::text::prefix(task_characters_of(user_identity(domain, name)), 80);
    if identity.len() == 0 {
        "AutoKey-Rust Startup"@
    } else {
        "AutoKey-Rust Startup - "@ + identity
    }
}

fn keep_task_characters(s: &Vec<char>) -> (r: Vec<char>)
    ensures
        r@ == task_characters_of(s@),
{
    let mut out: Vec<char> = Vec::new();
    let mut i: usize = 0;
    while i < s.len()
        invariant
            i <= s@.len(),
            out@ == task_characters_of(s@.take(i as int)),
        decreases s@.len() - i,
    {
        assert(s@.take(i + 1).drop_last() =~= s@.take(i as int));
        let c: char = s[i];
        if is_ascii_alphanumeric(c) || c == '-' || c == '_' || c == '.' {
            out.push(c);
        }
        i = i + 1;
    }
    assert(s@.take(i as int) =~= s@);
    out
}

/// The name of the scheduled task of a user.
pub fn scheduled_task_name(domain: &Option<String>, name: &Option<String>) -> (r: String)
    ensures
        r@ == task_name_of(crate::config::text_of(*domain), crate::config::text_of(*name)),
{
    let identity = match (domain, name) {
        (Some(domain), Some(name)) => concat3(domain, "_", name),
        (Some(domain), None) => domain.clone(),
        (None, Some(name)) => name.clone(),
        (None, None) => String::new(),
    };
    assert(identity@ =~= user_identity(
        crate::config::text_of(*domain),
        crate::config::text_of(*name),
    ));
    let kept = take_chars(&keep_task_characters(&to_chars(&identity)), 80);
    if kept.len() == 0 {
        "AutoKey-Rust Startup".to_owned()
    } else {
        concat("AutoKey-Rust Startup - ", &from_chars(&kept))
    }
}

impl StartupManager {
    /// What starting this program at login is to do, or what is missing to say
    /// so.
    pub fn current(env: &StartupEnvironment) -> (r: Result<StartupManager, String>)
        ensures
            match r {
                Err(message) => {
                    if env.app_data_root is None && env.app_data is None {
                        message@ == "APPDATA 未设置"@
                    } else {
                        env.executable is None && message@ == "无法确定程序路径"@
                    }
                },
                Ok(m) => {
                    let data = if env.app_data_root is Some {
                        env.app_data_root->Some_0@
                    } else {
                        env.app_data->Some_0@
                    };
                    &&& env.app_data_root is Some || env.app_data is Some
                    &&& env.executable is Some
                    &&& m.link_path@ == startup_link_path_of(data)
                    &&& m.target_path@ == env.executable->Some_0@
                    &&& m.arguments@ == STARTUP_ARGUMENT@
                    &&& m.working_dir@ == crate::paths::parent_of(env.executable->Some_0@)
                    &&& m.task_name@ == task_name_of(
                        crate::config::text_of(env.user_domain),
                        crate::config::text_of(env.user_name),
                    )
                    &&& m.resolved_target@ == env.resolved_target@
                    &&& m.resolved_working_dir@ == env.resolved_working_dir@
                },
            },
    {
        let data = match (&env.app_data_root, &env.app_data) {
            (Some(root), _) => root.clone(),
            (None, Some(app_data)) => app_data.clone(),
            (None, None) => {
                return Err("APPDATA 未设置".to_owned());
            },
        };
        let target_path = match &env.executable {
            Some(path) => path.clone(),
            None => {
                return Err("无法确定程序路径".to_owned());
            },
        };
        let working_dir = parent_directory(&target_path);
        Ok(
            StartupManager {
                link_path: startup_link_path_from_appdata(&data),
                target_path,
                arguments: STARTUP_ARGUMENT.to_owned(),
                working_dir,
                task_name: scheduled_task_name(&env.user_domain, &env.user_name),
                resolved_target: env.resolved_target.clone(),
                resolved_working_dir: env.resolved_working_dir.clone(),
            },
        )
    }
}

// ---------------------------------------------------------------------------
// Scripts
// ---------------------------------------------------------------------------
/// A text with every quotation mark doubled.
pub open spec fn doubled(s: Seq<char>) -> Seq<char>
    decreases s.len(),
{
    if s.len() == 0 {
        Seq::empty()
    } else if s.last() == '\'' {
        doubled(s.drop_last()) + seq!['\'', '\'']
    } else {
        doubled(s.drop_last()).push(s.last())
    }
}

/// A text as a literal of a script: between quotation marks, with those in it
/// doubled.
pub open spec fn quoted(s: Seq<char>) -> Seq<char> {
    seq!['\''] + doubled(s) + seq!['\'']
}

/// A text as a literal of a script.
pub fn ps_quote(value: &str) -> (r: String)
    ensures
        r@ == quoted(value@),
{
    let chars = to_chars(value);
    let mut out: Vec<char> = Vec::new();
    out.push('\'');
    let mut i: usize = 0;
    assert(out@ =~= seq!['\''] + doubled(chars@.take(0)));
    while i < chars.len()
        invariant
            i <= chars@.len(),
            out@ == seq!['\''] + doubled(chars@.take(i as int)),
        decreases chars@.len() - i,
    {
        let ghost before = out@;
        assert(chars@.take(i + 1).drop_last() =~= chars@.take(i as int));
        let c: char = chars[i];
        out.push(c);
        if c == '\'' {
            out.push('\'');
        }
        i = i + 1;
        assert(out@ =~= seq!['\''] + doubled(chars@.take(i as int)));
    }
    assert(chars@.take(i as int) =~= chars@);
    out.push('\'');
    assert(out@ =~= quoted(value@));
    from_chars(&out)
}

/// How a script reads the inside of a literal: two quotation marks stand for
/// one, and a single one would end it.
pub open spec fn unquoted(s: Seq<char>) -> Option<Seq<char>>
    decreases s.len(),
{
    if s.len() == 0 {
        Some(Seq::empty())
    } else if s.last() != '\'' {
        match unquoted(s.drop_last()) {
            Some(text) => Some(text.push(s.last())),
            None => None,
        }
    } else if s.len() >= 2 && s[s.len() - 2] == '\'' {
        match unquoted(s.take(s.len() - 2)) {
            Some(text) => Some(text.push('\'')),
            None => None,
        }
    } else {
        None
    }
}

/// A script reads a literal as the text that was quoted, whatever is in it: no
/// text can end its literal early.
pub proof fn lemma_quote_round_trip(s: Seq<char>)
    ensures
        unquoted(doubled(s)) == Some(s),
    decreases s.len(),
{
    if s.len() > 0 {
        let rest = s.drop_last();
        lemma_quote_round_trip(rest);
        let d = doubled(s);
        if s.last() == '\'' {
            assert(d.take(d.len() - 2) =~= doubled(rest));
        } else {
            assert(d.drop_last() =~= doubled(rest));
        }
        assert(rest.push(s.last()) =~= s);
    }
}

/// The script that reads a shortcut.
pub open spec fn read_shortcut_script_of(path: Seq<char>) -> Seq<char> {
    "$s=New-Object -ComObject WScript.Shell; $l=$s.CreateShortcut("@ + quoted(path)
        + "); Write-Output $l.TargetPath; Write-Output $l.Arguments; Write-Output $l.WorkingDirectory"@
}

/// The script that reads a shortcut.
pub fn read_shortcut_script(path: &str) -> (r: String)
    ensures
        r@ == read_shortcut_script_of(path@),
{
    concat3(
        "$s=New-Object -ComObject WScript.Shell; $l=$s.CreateShortcut(",
        &ps_quote(path),
        "); Write-Output $l.TargetPath; Write-Output $l.Arguments; Write-Output $l.WorkingDirectory",
    )
}

/// What a reply of the script that reads a shortcut says.
pub open spec fn shortcut_reply(output: Seq<char>, r: Option<ShortcutInfo>) -> bool {
    match r {
        None => crate::text::line_field(output, 0).len() == 0,
        Some(info) => {
            &&& crate::text::line_field(output, 0).len() > 0
            &&& info.target@ == crate::text::line_field(output, 0)
            &&& info.arguments@ == crate::text::line_field(output, 1)
            &&& info.working_dir@ == crate::text::line_field(output, 2)
        },
    }
}

/// The shortcut that a reply of the script describes: a line each for the
/// program, the argument and the directory.  Without a program there is none.
pub fn parse_shortcut_info(output: &str) -> (r: Option<ShortcutInfo>)
    ensures
        shortcut_reply(output@, r),
{
    let chars = to_chars(output);
    let target = nth_line(&chars, 0);
    if to_chars(&target).len() == 0 {
        return None;
    }
    Some(
        ShortcutInfo {
            target,
            arguments: nth_line(&chars, 1),
            working_dir: nth_line(&chars, 2),
        },
    )
}

/// The script that writes a shortcut.
pub open spec fn write_shortcut_script_of(m: StartupManager) -> Seq<char> {
    "$s=New-Object -ComObject WScript.Shell; $l=$s.CreateShortcut("@ + quoted(m.link_path@)
        + "); $l.TargetPath="@ + quoted(m.target_path@) + "; $l.Arguments="@ + quoted(m.arguments@)
        + "; $l.WorkingDirectory="@ + quoted(m.working_dir@) + "; $l.Save()"@
}

/// The script that writes a shortcut.
pub fn write_shortcut_script(m: &StartupManager) -> (r: String)
    ensures
        r@ == write_shortcut_script_of(*m),
{
    let mut s = concat3(
        "$s=New-Object -ComObject WScript.Shell; $l=$s.CreateShortcut(",
        &ps_quote(&m.link_path),
        "); $l.TargetPath=",
    );
    s = concat3(&s, &ps_quote(&m.target_path), "; $l.Arguments=");
    s = concat3(&s, &ps_quote(&m.arguments), "; $l.WorkingDirectory=");
    concat3(&s, &ps_quote(&m.working_dir), "; $l.Save()")
}

/// The script that reads the scheduled task.
pub open spec fn read_task_script_of(task_name: Seq<char>) -> Seq<char> {
    "$t=Get-ScheduledTask -TaskPath "@ + quoted(TASK_PATH@) + " -TaskName "@ + quoted(task_name)
        + " -ErrorAction SilentlyContinue; if($null -eq $t){exit 0}; $a=$t.Actions | Select-Object -First 1; Write-Output $a.Execute; Write-Output $a.Arguments; Write-Output $a.WorkingDirectory; Write-Output $t.Principal.RunLevel; Write-Output $t.State"@
}

/// The script that reads the scheduled task.
pub fn read_task_script(task_name: &str) -> (r: String)
    ensures
        r@ == read_task_script_of(task_name@),
{
    let s = concat3("$t=Get-ScheduledTask -TaskPath ", &ps_quote(TASK_PATH), " -TaskName ");
    concat3(
        &s,
        &ps_quote(task_name),
        " -ErrorAction SilentlyContinue; if($null -eq $t){exit 0}; $a=$t.Actions | Select-Object -First 1; Write-Output $a.Execute; Write-Output $a.Arguments; Write-Output $a.WorkingDirectory; Write-Output $t.Principal.RunLevel; Write-Output $t.State",
    )
}

/// What a reply of the script that reads the scheduled task says.
pub open spec fn task_reply(output: Seq<char>, r: Option<ScheduledTaskInfo>) -> bool {
    match r {
        None => crate::text::line_field(output, 0).len() == 0,
        Some(info) => {
            &&& crate::text::line_field(output, 0).len() > 0
            &&& info.target@ == crate::text::line_field(output, 0)
            &&& info.arguments@ == crate::text::line_field(output, 1)
            &&& info.working_dir@ == crate::text::line_field(output, 2)
            &&& info.run_level@ == crate::text::line_field(output, 3)
            &&& info.state@ == crate::text::line_field(output, 4)
        },
    }
}

/// The scheduled task that a reply of the script describes.  Without a program
/// there is none.
pub fn parse_scheduled_task(output: &str) -> (r: Option<ScheduledTaskInfo>)
    ensures
        task_reply(output@, r),
{
    let chars = to_chars(output);
    let target = nth_line(&chars, 0);
    if to_chars(&target).len() == 0 {
        return None;
    }
    Some(
        ScheduledTaskInfo {
            target,
            arguments: nth_line(&chars, 1),
            working_dir: nth_line(&chars, 2),
            run_level: nth_line(&chars, 3),
            state: nth_line(&chars, 4),
        },
    )
}

/// The script that writes the scheduled task.
pub open spec fn write_task_script_of(m: StartupManager) -> Seq<char> {
    "$identity=[System.Security.Principal.WindowsIdentity]::GetCurrent().Name; $action=New-ScheduledTaskAction -Execute "@
        + quoted(m.target_path@) + " -Argument "@ + quoted(m.arguments@) + " -WorkingDirectory "@
        + quoted(m.working_dir@)
        + "; $trigger=New-ScheduledTaskTrigger -AtLogOn -User $identity; $principal=New-ScheduledTaskPrincipal -UserId $identity -LogonType Interactive -RunLevel Highest; Register-ScheduledTask -TaskPath "@
        + quoted(TASK_PATH@) + " -TaskName "@ + quoted(m.task_name@)
        + " -Action $action -Trigger $trigger -Principal $principal -Description 'AutoKey-Rust per-user startup' -Force | Out-Null"@
}

/// The script that writes the scheduled task.
pub fn write_task_script(m: &StartupManager) -> (r: String)
    ensures
        r@ == write_task_script_of(*m),
{
    let mut s = concat3(
        "$identity=[System.Security.Principal.WindowsIdentity]::GetCurrent().Name; $action=New-ScheduledTaskAction -Execute ",
        &ps_quote(&m.target_path),
        " -Argument ",
    );
    s = concat3(&s, &ps_quote(&m.arguments), " -WorkingDirectory ");
    s = concat3(
        &s,
        &ps_quote(&m.working_dir),
        "; $trigger=New-ScheduledTaskTrigger -AtLogOn -User $identity; $principal=New-ScheduledTaskPrincipal -UserId $identity -LogonType Interactive -RunLevel Highest; Register-ScheduledTask -TaskPath ",
    );
    s = concat3(&s, &ps_quote(TASK_PATH), " -TaskName ");
    concat3(
        &s,
        &ps_quote(&m.task_name),
        " -Action $action -Trigger $trigger -Principal $principal -Description 'AutoKey-Rust per-user startup' -Force | Out-Null",
    )
}

/// The script that removes the scheduled task.
pub fn remove_task_script(task_name: &str) -> (r: String)
    ensures
        r@ == "Unregister-ScheduledTask -TaskPath "@ + quoted(TASK_PATH@) + " -TaskName "@
            + quoted(task_name@) + " -Confirm:$false -ErrorAction Stop"@,
{
    let s = concat3("Unregister-ScheduledTask -TaskPath ", &ps_quote(TASK_PATH), " -TaskName ");
    concat3(&s, &ps_quote(task_name), " -Confirm:$false -ErrorAction Stop")
}

/// What to do about a script that was started some time ago.
#[derive(Debug, Clone, Copy, PartialEq, Eq, Structural)]
pub enum ScriptWait {
    Finished,
    KeepWaiting,
    TimedOut,
}

/// What to do about a script that was started some time ago.
pub fn script_wait(finished: bool, elapsed_ms: u64) -> (r: ScriptWait)
    ensures
        r == if finished {
            ScriptWait::Finished
        } else if elapsed_ms < POWERSHELL_TIMEOUT_MS {
            ScriptWait::KeepWaiting
        } else {
            ScriptWait::TimedOut
        },
{
    if finished {
        ScriptWait::Finished
    } else if elapsed_ms < POWERSHELL_TIMEOUT_MS {
        ScriptWait::KeepWaiting
    } else {
        ScriptWait::TimedOut
    }
}

/// The message for a script that failed.
pub open spec fn script_failure_message(stderr: Seq<char>) -> Seq<char> {
    "PowerShell 快捷方式操作失败: "@ + if crate::text::trimmed(stderr).len() == 0 {
        "未知错误"@
    } else {
        crate::text::trimmed(stderr)
    }
}

/// What came of a script: its output, or why it failed.
pub fn script_result(success: bool, stdout: String, stderr: &str) -> (r: Result<String, String>)
    ensures
        match r {
            Ok(output) => success && output@ == stdout@,
            Err(message) => !success && message@ == script_failure_message(stderr@),
        },
{
    if success {
        return Ok(stdout);
    }
    let error = trim(stderr);
    if to_chars(&error).len() == 0 {
        Err(concat("PowerShell 快捷方式操作失败: ", "未知错误"))
    } else {
        Err(concat("PowerShell 快捷方式操作失败: ", &error))
    }
}

/// What came of a script, by the bytes that it wrote.
pub fn script_output(success: bool, stdout: &Vec<u8>, stderr: &Vec<u8>) -> (r: Result<
    String,
    String,
>)
    ensures
        match r {
            Ok(output) => success && output@ == crate::stealth::lossy_text(stdout@),
            Err(message) => !success && message@ == script_failure_message(
                crate::stealth::lossy_text(stderr@),
            ),
        },
{
    script_result(success, text_of_bytes(stdout), &text_of_bytes(stderr))
}

// ---------------------------------------------------------------------------
// The registry
// ---------------------------------------------------------------------------
/// Whether the user switched the shortcut off, by the bytes that the settings
/// keep for it.
pub fn startup_folder_disabled(value: &Option<Vec<u8>>) -> (r: bool)
    ensures
        r == match *value {
            Some(bytes) => bytes@.len() > 0 && bytes@[0] == 3,
            None => false,
        },
{
    match value {
        Some(bytes) => bytes.len() > 0 && bytes[0] == 3,
        None => false,
    }
}

/// The first position from `from` on at which `c` stands.
pub open spec fn position_of(s: Seq<char>, c: char, from: nat) -> Option<nat>
    decreases s.len() - from,
{
    if from >= s.len() {
        None
    } else if s[from as int] == c {
        Some(from)
    } else {
        position_of(s, c, from + 1)
    }
}

/// The number of characters before the first white space.
pub open spec fn word_length(s: Seq<char>) -> nat
    decreases s.len(),
{
    if s.len() == 0 || crate::text::whitespace(s[0]) {
        0
    } else {
        1 + word_length(s.subrange(1, s.len() as int))
    }
}

/// The program that a command line starts: what stands between quotation marks,
/// or the first word.
pub open spec fn command_target(command: Seq<char>) -> Option<Seq<char>> {
    let line = crate::text::trimmed(command);
    if line.len() > 0 && line[0] == '"' {
        match position_of(line, '"', 1) {
            Some(end) => Some(line.subrange(1, end as int)),
            None => None,
        }
    } else if line.len() == 0 {
        None
    } else {
        Some(line.take(word_length(line) as int))
    }
}

proof fn lemma_word_length(s: Seq<char>, n: int)
    requires
        0 <= n <= s.len(),
        forall|i: int| 0 <= i < n ==> !crate::text::whitespace(#[trigger] s[i]),
        n == s.len() || crate::text::whitespace(s[n]),
    ensures
        word_length(s) == n,
    decreases n,
{
    if n > 0 {
        assert(!crate::text::whitespace(s[0]));
        let rest = s.subrange(1, s.len() as int);
        assert forall|i: int| 0 <= i < n - 1 implies !crate::text::whitespace(
            #[trigger] rest[i],
        ) by {
            assert(!crate::text::whitespace(s[i + 1]));
        }
        lemma_word_length(rest, n - 1);
    }
}

/// The program that a command line starts.
pub fn shortcut_target_from_command(command: &str) -> (r: Option<String>)
    ensures
        crate::config::text_of(r) == command_target(command@),
{
    let chars = to_chars(command);
    let line = trim_chars(&chars);
    if line.len() == 0 {
        return None;
    }
    if line[0] == '"' {
        let mut end: usize = 1;
        while end < line.len() && line[end] != '"'
            invariant
                1 <= end <= line@.len(),
                position_of(line@, '"', 1) == position_of(line@, '"', end as nat),
            decreases line@.len() - end,
        {
            end = end + 1;
        }
        if end < line.len() {
            Some(from_chars(&slice_chars(&line, 1, end)))
        } else {
            None
        }
    } else {
        let mut n: usize = 0;
        while n < line.len() && !is_whitespace(line[n])
            invariant
                n <= line@.len(),
                forall|i: int| 0 <= i < n ==> !crate::text::whitespace(#[trigger] line@[i]),
            decreases line@.len() - n,
        {
            n = n + 1;
        }
        proof {
            lemma_word_length(line@, n as int);
        }
        let word = slice_chars(&line, 0, n);
        assert(word@ =~= line@.take(n as int));
        Some(from_chars(&word))
    }
}

/// Whether an entry of the registry starts an earlier program, which this one
/// takes the place of.
pub open spec fn starts_earlier_program(command: Seq<char>) -> bool {
    match command_target(command) {
        Some(path) => match crate::paths::file_name_of(path) {
            Some(name) => {
                ||| crate::text::same_ignoring_case(name, "AutoKey.exe"@)
                ||| crate::text::same_ignoring_case(name, "KeyScheduler.exe"@)
            },
            None => false,
        },
        None => false,
    }
}

/// Whether an entry of the registry starts an earlier program.
pub fn is_earlier_program(command: &str) -> (r: bool)
    ensures
        r == starts_earlier_program(command@),
{
    match shortcut_target_from_command(command) {
        Some(path) => match file_name(&path) {
            Some(name) => eq_ignore_ascii_case(&name, "AutoKey.exe") || eq_ignore_ascii_case(
                &name,
                "KeyScheduler.exe",
            ),
            None => false,
        },
        None => false,
    }
}

/// The values that are removed from the registry; that of the earliest program
/// only where it was found to start one.
pub fn obsolete_run_values(removes_earliest: bool) -> (r: Vec<String>)
    ensures
        r@.len() == if removes_earliest {
            3nat
        } else {
            2nat
        },
        r@[0]@ == CURRENT_RUN_VALUE@,
        r@[1]@ == LEGACY_RUST_RUN_VALUE@,
        removes_earliest ==> r@[2]@ == LEGACY_CSHARP_RUN_VALUE@,
{
    let mut out: Vec<String> = Vec::new();
    out.push(CURRENT_RUN_VALUE.to_owned());
    out.push(LEGACY_RUST_RUN_VALUE.to_owned());
    if removes_earliest {
        out.push(LEGACY_CSHARP_RUN_VALUE.to_owned());
    }
    out
}

// ---------------------------------------------------------------------------
// What holds of starting at login
// ---------------------------------------------------------------------------
/// A start is that of this program exactly if the program, its directory and,
/// without white space around it, its argument are the same up to case.
pub proof fn lemma_starts_program(
    m: StartupManager,
    target: Seq<char>,
    arguments: Seq<char>,
    working_dir: Seq<char>,
)
    ensures
        starts_program(m, target, arguments, working_dir) <==> {
            &&& crate::text::uppercased(target) == crate::text::uppercased(m.resolved_target@)
            &&& crate::text::uppercased(working_dir) == crate::text::uppercased(
                m.resolved_working_dir@,
            )
            &&& crate::text::uppercased(crate::text::trimmed(arguments))
                == crate::text::uppercased(m.arguments@)
        },
        starts_program(
            m,
            m.resolved_target@,
            m.arguments@,
            m.resolved_working_dir@,
        ) <==> crate::text::same_ignoring_case(crate::text::trimmed(m.arguments@), m.arguments@),
        same_path_as(target, target),
        same_path_as(target, working_dir) == same_path_as(working_dir, target),
{
}

/// How the program is started is told by what the system has: by the task
/// wherever that starts it with the highest rights and is not disabled; else by
/// the shortcut, where that starts it and was not switched off; else not at all.
pub proof fn lemma_how_program_is_started(m: StartupManager, o: AutostartObservation)
    ensures
        ({
            let r = status_of(m, o);
            let task = o.task is Some && starts_program(
                m,
                o.task->Some_0.target@,
                o.task->Some_0.arguments@,
                o.task->Some_0.working_dir@,
            ) && crate::text::same_ignoring_case(o.task->Some_0.run_level@, "Highest"@)
                && !crate::text::same_ignoring_case(o.task->Some_0.state@, "Disabled"@);
            let shortcut = o.shortcut is Some && !o.disabled_by_windows && starts_program(
                m,
                o.shortcut->Some_0.target@,
                o.shortcut->Some_0.arguments@,
                o.shortcut->Some_0.working_dir@,
            );
            &&& task ==> r.backend == Some(AutostartBackend::ElevatedScheduledTask)
            &&& !task && shortcut ==> r.backend == Some(AutostartBackend::StartupShortcut)
            &&& !task && !shortcut ==> r.backend is None
            &&& r.enabled <==> task || shortcut
            &&& r.supported == o.supported
            &&& r.link_path == m.link_path@ && r.target_path == m.target_path@
            &&& r.arguments == m.arguments@ && r.working_dir == m.working_dir@
        }),
        !unsupported().supported && !unsupported().enabled && unsupported().backend is None,
        unsupported().arguments == "--autostart"@,
        unsupported().link_path.len() == 0 && unsupported().target_path.len() == 0
            && unsupported().working_dir.len() == 0,
{
}

/// An answer is good for half a minute from when it was given, and no longer.
pub proof fn lemma_answers_age(answer: CacheModel, now_ms: u64)
    ensures
        now_ms < answer.checked_at_ms + 30_000 ==> fresh_answer(Some(answer), now_ms) == Some(
            answer.status.enabled,
        ),
        now_ms >= answer.checked_at_ms + 30_000 ==> fresh_answer(Some(answer), now_ms) is None,
        fresh_answer(None, now_ms) is None,
        known(None) == unsupported(),
{
}

/// Switching off always removes all; switching on writes what is wanted, a task
/// with administrator rights and else a shortcut, unless it is there already, or
/// a task is and the rights to replace it are not.
pub proof fn lemma_switching(enabled: bool, current: Option<AutostartBackend>, elevated: bool)
    ensures
        ({
            let plan = switch_plan_of(enabled, current, elevated);
            &&& plan is RemoveAll <==> !enabled
            &&& plan is WriteTask <==> enabled && elevated && current != Some(
                AutostartBackend::ElevatedScheduledTask,
            )
            &&& plan is WriteShortcut <==> enabled && !elevated && current is None
            &&& plan is Keep <==> enabled && current is Some && (!elevated || current == Some(
                AutostartBackend::ElevatedScheduledTask,
            ))
        }),
        backend_for(true) == AutostartBackend::ElevatedScheduledTask,
        backend_for(false) == AutostartBackend::StartupShortcut,
{
    match current {
        Some(AutostartBackend::StartupShortcut) => {},
        Some(AutostartBackend::ElevatedScheduledTask) => {},
        None => {},
    }
}

/// The message for a switch that did not take effect tells all that was found.
pub proof fn lemma_verification_message(s: AutostartModel)
    ensures
        crate::text::occurs_in(verification_message(s), " target="@ + s.target_path + " args="@),
        crate::text::occurs_in(verification_message(s), "link="@ + s.link_path + " target="@),
        crate::text::occurs_in(verification_message(s), " args="@ + s.arguments + " working_dir="@),
        crate::text::occurs_in(verification_message(s), " working_dir="@ + s.working_dir),
{
    reveal_strlit("link=");
    reveal_strlit("开机启动快捷方式写入后验证失败: link=");
    let whole = verification_message(s);
    let start = "开机启动快捷方式写入后验证失败: link="@;
    let link = "link="@ + s.link_path + " target="@;
    let target = " target="@ + s.target_path + " args="@;
    let arguments = " args="@ + s.arguments + " working_dir="@;
    let directory = " working_dir="@ + s.working_dir;
    let a = start.len() + s.link_path.len();
    let b = a + " target="@.len() + s.target_path.len();
    let c = b + " args="@.len() + s.arguments.len();
    assert(whole.subrange(start.len() - 5, start.len() - 5 + link.len()) =~= link);
    assert(whole.subrange(a as int, (a + target.len()) as int) =~= target);
    assert(whole.subrange(b as int, (b + arguments.len()) as int) =~= arguments);
    assert(whole.subrange(c as int, (c + directory.len()) as int) =~= directory);
    assert(crate::text::occurs_at(whole, link, start.len() - 5));
    assert(crate::text::occurs_at(whole, target, a as int));
    assert(crate::text::occurs_at(whole, arguments, b as int));
    assert(crate::text::occurs_at(whole, directory, c as int));
}

/// The shortcut lies in the startup folder of the user's start menu.
pub proof fn lemma_startup_folder(appdata: Seq<char>)
    requires
        appdata.len() > 2,
        appdata.last() != '\\',
        appdata.last() != '/',
    ensures
        startup_link_path_of(appdata) == appdata
            + "\\Microsoft\\Windows\\Start Menu\\Programs\\Startup\\AutoKey-Rust.lnk"@,
{
    reveal_strlit("Microsoft");
    reveal_strlit("Windows");
    reveal_strlit("Start Menu");
    reveal_strlit("Programs");
    reveal_strlit("Startup");
    reveal_strlit("AutoKey-Rust.lnk");
    reveal_strlit("\\Microsoft\\Windows\\Start Menu\\Programs\\Startup\\AutoKey-Rust.lnk");
    let a = crate::store::joined(appdata, "Microsoft"@);
    assert(a.last() == 't');
    let b = crate::store::joined(a, "Windows"@);
    assert(b.last() == 's');
    let c = crate::store::joined(b, "Start Menu"@);
    assert(c.last() == 'u');
    let d = crate::store::joined(c, "Programs"@);
    assert(d.last() == 's');
    let e = crate::store::joined(d, "Startup"@);
    assert(e.last() == 'p');
    assert(startup_link_path_of(appdata) =~= appdata
        + "\\Microsoft\\Windows\\Start Menu\\Programs\\Startup\\AutoKey-Rust.lnk"@);
}

proof fn lemma_task_characters(s: Seq<char>)
    ensures
        task_characters_of(s).len() <= s.len(),
        forall|i: int|
            0 <= i < task_characters_of(s).len() ==> task_character(
                #[trigger] task_characters_of(s)[i],
            ),
        (forall|i: int| 0 <= i < s.len() ==> task_character(#[trigger] s[i]))
            ==> task_characters_of(s) == s,
    decreases s.len(),
{
    if s.len() > 0 {
        let rest = s.drop_last();
        lemma_task_characters(rest);
        if forall|i: int| 0 <= i < s.len() ==> task_character(#[trigger] s[i]) {
            assert(task_character(s[s.len() - 1]));
            assert forall|i: int| 0 <= i < rest.len() implies task_character(#[trigger] rest[i]) by {
                assert(rest[i] == s[i]);
            }
            assert(rest.push(s.last()) =~= s);
        }
    }
}

/// The task is named after the user: by domain and name as far as they are known
/// and can stand in a name, up to 80 characters.  Where nothing is left, the name
/// says nothing of the user.
pub proof fn lemma_task_name(domain: Seq<char>, name: Seq<char>)
    ensures
        task_name_of(None, None) == "AutoKey-Rust Startup"@,
        (forall|i: int| 0 <= i < domain.len() ==> task_character(#[trigger] domain[i])) && (
        forall|i: int| 0 <= i < name.len() ==> task_character(#[trigger] name[i])) ==> {
            &&& domain.len() + 1 + name.len() <= 80 ==> task_name_of(Some(domain), Some(name))
                == "AutoKey-Rust Startup - "@ + domain + seq!['_'] + name
            &&& 0 < name.len() <= 80 ==> task_name_of(None, Some(name))
                == "AutoKey-Rust Startup - "@ + name
            &&& 0 < domain.len() <= 80 ==> task_name_of(Some(domain), None)
                == "AutoKey-Rust Startup - "@ + domain
        },
        task_name_of(Some(domain), Some(name)).len() <= "AutoKey-Rust Startup - "@.len() + 80,
        forall|c: char|
            #[trigger] task_character(c) <==> '0' <= c <= '9' || 'a' <= c <= 'z' || 'A' <= c <= 'Z'
                || c == '-' || c == '_' || c == '.',
{
    reveal_strlit("_");
    assert("_"@ =~= seq!['_']);
    reveal_strlit("AutoKey-Rust Startup");
    reveal_strlit("AutoKey-Rust Startup - ");
    assert(task_characters_of(Seq::empty()) =~= Seq::empty());
    let both = domain + "_"@ + name;
    lemma_task_characters(both);
    lemma_task_characters(domain);
    lemma_task_characters(name);
    if (forall|i: int| 0 <= i < domain.len() ==> task_character(#[trigger] domain[i])) && (forall|
        i: int,
    |
        0 <= i < name.len() ==> task_character(#[trigger] name[i])) {
        assert forall|i: int| 0 <= i < both.len() implies task_character(#[trigger] both[i]) by {
            if i < domain.len() {
                assert(both[i] == domain[i]);
            } else if i > domain.len() {
                assert(both[i] == name[i - domain.len() - 1]);
            }
        }
        assert(task_characters_of(both) == both);
        if domain.len() + 1 + name.len() <= 80 {
            assert(task_name_of(Some(domain), Some(name)) =~= "AutoKey-Rust Startup - "@ + domain
                + seq!['_'] + name);
        }
    }
}

/// A literal is the text between quotation marks, and as it stands where there
/// is none in it; two texts never have the same literal.
pub proof fn lemma_literals(s: Seq<char>, other: Seq<char>)
    ensures
        quoted(s).len() >= s.len() + 2,
        quoted(s)[0] == '\'',
        quoted(s).last() == '\'',
        unquoted(quoted(s).subrange(1, quoted(s).len() - 1)) == Some(s),
        quoted(s) == quoted(other) ==> s == other,
        (forall|i: int| 0 <= i < s.len() ==> #[trigger] s[i] != '\'') ==> quoted(s) == seq!['\'']
            + s + seq!['\''],
    decreases s.len(),
{
    lemma_doubled(s);
    lemma_quote_round_trip(s);
    lemma_quote_round_trip(other);
    assert(quoted(s).subrange(1, quoted(s).len() - 1) =~= doubled(s));
    assert(quoted(other).subrange(1, quoted(other).len() - 1) =~= doubled(other));
}

proof fn lemma_doubled(s: Seq<char>)
    ensures
        doubled(s).len() >= s.len(),
        (forall|i: int| 0 <= i < s.len() ==> #[trigger] s[i] != '\'') ==> doubled(s) == s,
    decreases s.len(),
{
    if s.len() > 0 {
        let rest = s.drop_last();
        lemma_doubled(rest);
        if forall|i: int| 0 <= i < s.len() ==> #[trigger] s[i] != '\'' {
            assert(s[s.len() - 1] != '\'');
            assert forall|i: int| 0 <= i < rest.len() implies #[trigger] rest[i] != '\'' by {
                assert(s[i] != '\'');
            }
            assert(rest.push(s.last()) =~= s);
        }
    }
}

/// The script that writes a shortcut sets the program, its argument and its
/// directory to those of the program, at the place of the shortcut, and saves it.
pub proof fn lemma_shortcut_script(m: StartupManager, path: Seq<char>)
    ensures
        ({
            let script = write_shortcut_script_of(m);
            &&& crate::text::occurs_in(script, ".CreateShortcut("@ + quoted(m.link_path@) + ");"@)
            &&& crate::text::occurs_in(script, "$l.TargetPath="@ + quoted(m.target_path@) + ";"@)
            &&& crate::text::occurs_in(script, "$l.Arguments="@ + quoted(m.arguments@) + ";"@)
            &&& crate::text::occurs_in(
                script,
                "$l.WorkingDirectory="@ + quoted(m.working_dir@) + ";"@,
            )
            &&& crate::text::occurs_in(script, "$l.Save()"@)
            &&& crate::text::occurs_in(
                read_shortcut_script_of(path),
                ".CreateShortcut("@ + quoted(path) + ");"@,
            )
        }),
{
    reveal_strlit("$s=New-Object -ComObject WScript.Shell; $l=$s.CreateShortcut(");
    reveal_strlit(".CreateShortcut(");
    reveal_strlit(");");
    reveal_strlit("); $l.TargetPath=");
    reveal_strlit("$l.TargetPath=");
    reveal_strlit("; $l.Arguments=");
    reveal_strlit("$l.Arguments=");
    reveal_strlit("; $l.WorkingDirectory=");
    reveal_strlit("$l.WorkingDirectory=");
    reveal_strlit("; $l.Save()");
    reveal_strlit("$l.Save()");
    reveal_strlit(";");
    reveal_strlit(
        "); Write-Output $l.TargetPath; Write-Output $l.Arguments; Write-Output $l.WorkingDirectory",
    );
    let script = write_shortcut_script_of(m);
    let (link, target, arguments, directory) = (
        quoted(m.link_path@),
        quoted(m.target_path@),
        quoted(m.arguments@),
        quoted(m.working_dir@),
    );
    let open = "$s=New-Object -ComObject WScript.Shell; $l=$s.CreateShortcut("@;
    let a = open.len() + link.len();
    let b = a + "); $l.TargetPath="@.len() + target.len();
    let c = b + "; $l.Arguments="@.len() + arguments.len();
    let d = c + "; $l.WorkingDirectory="@.len() + directory.len();
    lemma_found(
        script,
        ".CreateShortcut("@ + link + ");"@,
        open.len() - ".CreateShortcut("@.len(),
    );
    lemma_found(script, "$l.TargetPath="@ + target + ";"@, (a + 3) as int);
    lemma_found(script, "$l.Arguments="@ + arguments + ";"@, (b + 2) as int);
    lemma_found(script, "$l.WorkingDirectory="@ + directory + ";"@, (c + 2) as int);
    lemma_found(script, "$l.Save()"@, (d + 2) as int);
    lemma_found(
        read_shortcut_script_of(path),
        ".CreateShortcut("@ + quoted(path) + ");"@,
        open.len() - ".CreateShortcut("@.len(),
    );
}

proof fn lemma_found(s: Seq<char>, needle: Seq<char>, at: int)
    requires
        0 <= at,
        at + needle.len() <= s.len(),
        forall|i: int| 0 <= i < needle.len() ==> s[at + i] == #[trigger] needle[i],
    ensures
        crate::text::occurs_in(s, needle),
{
    assert(s.subrange(at, at + needle.len()) =~= needle);
    assert(crate::text::occurs_at(s, needle, at));
}

/// The script that writes the task starts the program with its argument in its
/// directory, with the highest rights, when the user logs on, under the name of
/// the task; the script that reads it asks for that name.
pub proof fn lemma_task_script(m: StartupManager, name: Seq<char>)
    ensures
        ({
            let script = write_task_script_of(m);
            &&& crate::text::occurs_in(script, " -Execute "@ + quoted(m.target_path@) + " "@)
            &&& crate::text::occurs_in(script, " -Argument "@ + quoted(m.arguments@) + " "@)
            &&& crate::text::occurs_in(
                script,
                " -WorkingDirectory "@ + quoted(m.working_dir@) + ";"@,
            )
            &&& crate::text::occurs_in(script, " -TaskName "@ + quoted(m.task_name@) + " "@)
            &&& crate::text::occurs_in(script, " -RunLevel Highest;"@)
            &&& crate::text::occurs_in(script, " -AtLogOn "@)
            &&& crate::text::occurs_in(
                read_task_script_of(name),
                " -TaskName "@ + quoted(name) + " "@,
            )
        }),
{
    let head = "$identity=[System.Security.Principal.WindowsIdentity]::GetCurrent().Name; $action=New-ScheduledTaskAction -Execute "@;
    let middle = "; $trigger=New-ScheduledTaskTrigger -AtLogOn -User $identity; $principal=New-ScheduledTaskPrincipal -UserId $identity -LogonType Interactive -RunLevel Highest; Register-ScheduledTask -TaskPath "@;
    let tail = " -Action $action -Trigger $trigger -Principal $principal -Description 'AutoKey-Rust per-user startup' -Force | Out-Null"@;
    reveal_strlit(
        "$identity=[System.Security.Principal.WindowsIdentity]::GetCurrent().Name; $action=New-ScheduledTaskAction -Execute ",
    );
    reveal_strlit(
        "; $trigger=New-ScheduledTaskTrigger -AtLogOn -User $identity; $principal=New-ScheduledTaskPrincipal -UserId $identity -LogonType Interactive -RunLevel Highest; Register-ScheduledTask -TaskPath ",
    );
    reveal_strlit(
        " -Action $action -Trigger $trigger -Principal $principal -Description 'AutoKey-Rust per-user startup' -Force | Out-Null",
    );
    reveal_strlit("$t=Get-ScheduledTask -TaskPath ");
    reveal_strlit(
        " -ErrorAction SilentlyContinue; if($null -eq $t){exit 0}; $a=$t.Actions | Select-Object -First 1; Write-Output $a.Execute; Write-Output $a.Arguments; Write-Output $a.WorkingDirectory; Write-Output $t.Principal.RunLevel; Write-Output $t.State",
    );
    reveal_strlit(" -Execute ");
    reveal_strlit(" -Argument ");
    reveal_strlit(" -WorkingDirectory ");
    reveal_strlit(" -TaskName ");
    reveal_strlit(" -RunLevel Highest;");
    reveal_strlit(" -AtLogOn ");
    reveal_strlit(" ");
    reveal_strlit(";");
    let script = write_task_script_of(m);
    let (target, arguments, directory, path, task) = (
        quoted(m.target_path@),
        quoted(m.arguments@),
        quoted(m.working_dir@),
        quoted(TASK_PATH@),
        quoted(m.task_name@),
    );
    let a = head.len() + target.len();
    let b = a + " -Argument "@.len() + arguments.len();
    let c = b + " -WorkingDirectory "@.len() + directory.len();
    let d = c + middle.len() + path.len();
    lemma_found(script, " -Execute "@ + target + " "@, head.len() - " -Execute "@.len());
    lemma_found(script, " -Argument "@ + arguments + " "@, a as int);
    lemma_found(script, " -WorkingDirectory "@ + directory + ";"@, b as int);
    lemma_found(script, " -TaskName "@ + task + " "@, d as int);
    lemma_found(middle, " -AtLogOn "@, 35);
    lemma_found(middle, " -RunLevel Highest;"@, 140);
    let before = head + target + " -Argument "@ + arguments + " -WorkingDirectory "@ + directory;
    let after = path + " -TaskName "@ + task + tail;
    assert(script =~= before + middle + after);
    crate::text::lemma_occurs_within(before, middle, after, " -AtLogOn "@);
    crate::text::lemma_occurs_within(before, middle, after, " -RunLevel Highest;"@);
    let asked = "$t=Get-ScheduledTask -TaskPath "@.len() + path.len();
    lemma_found(read_task_script_of(name), " -TaskName "@ + quoted(name) + " "@, asked as int);
}

/// What a script replies is read line by line: the program, the argument and the
/// directory, and for a task its rights and its state, each without white space
/// around it; a reply with an empty first line tells of nothing.
pub proof fn lemma_replies(
    target: Seq<char>,
    arguments: Seq<char>,
    directory: Seq<char>,
    level: Seq<char>,
    state: Seq<char>,
    shortcut: Option<ShortcutInfo>,
    task: Option<ScheduledTaskInfo>,
)
    requires
        forall|i: int| 0 <= i < target.len() ==> #[trigger] target[i] != '\n',
        forall|i: int| 0 <= i < arguments.len() ==> #[trigger] arguments[i] != '\n',
        forall|i: int| 0 <= i < directory.len() ==> #[trigger] directory[i] != '\n',
        forall|i: int| 0 <= i < level.len() ==> #[trigger] level[i] != '\n',
        forall|i: int| 0 <= i < state.len() ==> #[trigger] state[i] != '\n',
    ensures
        ({
            let feed = seq!['\n'];
            let three = target + feed + (arguments + feed + directory);
            let five = target + feed + (arguments + feed + (directory + feed + (level + feed
                + state)));
            &&& shortcut_reply(three, shortcut) ==> (shortcut is None <==> crate::text::trimmed(
                target,
            ).len() == 0)
            &&& shortcut_reply(three, shortcut) && shortcut is Some ==> {
                &&& shortcut->Some_0.target@ == crate::text::trimmed(target)
                &&& shortcut->Some_0.arguments@ == crate::text::trimmed(arguments)
                &&& shortcut->Some_0.working_dir@ == crate::text::trimmed(directory)
            }
            &&& task_reply(five, task) ==> (task is None <==> crate::text::trimmed(target).len()
                == 0)
            &&& task_reply(five, task) && task is Some ==> {
                &&& task->Some_0.target@ == crate::text::trimmed(target)
                &&& task->Some_0.arguments@ == crate::text::trimmed(arguments)
                &&& task->Some_0.working_dir@ == crate::text::trimmed(directory)
                &&& task->Some_0.run_level@ == crate::text::trimmed(level)
                &&& task->Some_0.state@ == crate::text::trimmed(state)
            }
        }),
{
    let feed = seq!['\n'];
    let last_two = level + feed + state;
    let last_three = directory + feed + last_two;
    let last_four = arguments + feed + last_three;
    let two = arguments + feed + directory;
    crate::text::lemma_lines(target, two, 0);
    crate::text::lemma_lines(target, two, 1);
    crate::text::lemma_lines(arguments, directory, 0);
    crate::text::lemma_lines(directory, directory, 0);
    crate::text::lemma_lines(target, last_four, 0);
    crate::text::lemma_lines(target, last_four, 1);
    crate::text::lemma_lines(target, last_four, 2);
    crate::text::lemma_lines(target, last_four, 3);
    crate::text::lemma_lines(arguments, last_three, 0);
    crate::text::lemma_lines(arguments, last_three, 1);
    crate::text::lemma_lines(arguments, last_three, 2);
    crate::text::lemma_lines(directory, last_two, 0);
    crate::text::lemma_lines(directory, last_two, 1);
    crate::text::lemma_lines(level, state, 0);
    crate::text::lemma_lines(state, state, 0);
}

proof fn lemma_position(s: Seq<char>, c: char, from: nat, at: nat)
    requires
        from <= at < s.len(),
        s[at as int] == c,
        forall|i: int| from <= i < at ==> #[trigger] s[i] != c,
    ensures
        position_of(s, c, from) == Some(at),
    decreases at - from,
{
    if from < at {
        assert(s[from as int] != c);
        lemma_position(s, c, from + 1, at);
    }
}

proof fn lemma_no_position(s: Seq<char>, c: char, from: nat)
    requires
        forall|i: int| from <= i < s.len() ==> #[trigger] s[i] != c,
    ensures
        position_of(s, c, from) is None,
    decreases s.len() - from,
{
    if from < s.len() {
        assert(s[from as int] != c);
        lemma_no_position(s, c, from + 1);
    }
}

/// The program of a command line is what stands between its first quotation
/// marks, blanks and all, or the first word where it begins without one; a line
/// that is empty, or whose quotation mark is never closed, starts nothing.
pub proof fn lemma_command_target(line: Seq<char>, path: Seq<char>, rest: Seq<char>)
    requires
        crate::text::trimmed(line) == line,
    ensures
        line.len() == 0 ==> command_target(line) is None,
        line == seq!['"'] + path + seq!['"'] + rest && (forall|i: int|
            0 <= i < path.len() ==> #[trigger] path[i] != '"') ==> command_target(line) == Some(
            path,
        ),
        line == seq!['"'] + path && (forall|i: int| 0 <= i < path.len() ==> #[trigger] path[i]
            != '"') ==> command_target(line) is None,
        path.len() > 0 && path[0] != '"' && (forall|i: int|
            0 <= i < path.len() ==> !crate::text::whitespace(#[trigger] path[i])) && (line == path
            || line == path + seq![' '] + rest) ==> command_target(line) == Some(path),
{
    if line == seq!['"'] + path + seq!['"'] + rest && (forall|i: int|
        0 <= i < path.len() ==> #[trigger] path[i] != '"') {
        assert forall|i: int| 1 <= i < path.len() + 1 implies #[trigger] line[i] != '"' by {
            assert(line[i] == path[i - 1]);
        }
        assert(line[0] == '"');
        assert(line[path.len() as int + 1] == '"');
        lemma_position(line, '"', 1, (path.len() + 1) as nat);
        assert(line.subrange(1, path.len() as int + 1) =~= path);
    }
    if line == seq!['"'] + path && (forall|i: int| 0 <= i < path.len() ==> #[trigger] path[i]
        != '"') {
        assert(line[0] == '"');
        assert forall|i: int| 1 <= i < line.len() implies #[trigger] line[i] != '"' by {
            assert(line[i] == path[i - 1]);
        }
        lemma_no_position(line, '"', 1);
    }
    if path.len() > 0 && path[0] != '"' && (forall|i: int|
        0 <= i < path.len() ==> !crate::text::whitespace(#[trigger] path[i])) && (line == path
        || line == path + seq![' '] + rest) {
        let n = path.len() as int;
        assert(line[0] == path[0]);
        assert forall|i: int| 0 <= i < n implies !crate::text::whitespace(#[trigger] line[i]) by {
            assert(line[i] == path[i]);
        }
        if line.len() > n {
            assert(line[n] == ' ');
        }
        lemma_word_length(line, n);
        assert(line.take(n) =~= path);
    }
}

/// An entry starts an earlier program exactly if the file that it starts has the
/// name of one, up to case, wherever it lies.
pub proof fn lemma_earlier_programs(command: Seq<char>)
    ensures
        starts_earlier_program(command) <==> {
            &&& command_target(command) is Some
            &&& crate::paths::file_name_of(command_target(command)->Some_0) is Some
            &&& ({
                let name = crate::text::uppercased(
                    crate::paths::file_name_of(command_target(command)->Some_0)->Some_0,
                );
                name == "AUTOKEY.EXE"@ || name == "KEYSCHEDULER.EXE"@
            })
        },
{
    reveal_strlit("AutoKey.exe");
    reveal_strlit("KeyScheduler.exe");
    reveal_strlit("AUTOKEY.EXE");
    reveal_strlit("KEYSCHEDULER.EXE");
    assert(crate::text::uppercased("AutoKey.exe"@) =~= "AUTOKEY.EXE"@);
    assert(crate::text::uppercased("KeyScheduler.exe"@) =~= "KEYSCHEDULER.EXE"@);
}

/// An answer less than half a minute old is given again without asking; else it
/// is asked for, given, and kept.
pub proof fn lemma_asking<R: FnOnce() -> (Option<AutostartStatus>, u64)>(
    cache: &mut StatusCache,
    now: u64,
    read: R,
    r: bool,
)
    requires
        call_ensures(is_enabled::<R>, (cache, now, read), r),
    ensures
        old(cache)@ is Some && now < old(cache)@->Some_0.checked_at_ms + 30_000 ==> {
            &&& r == old(cache)@->Some_0.status.enabled
            &&& final(cache)@ == old(cache)@
        },
        final(cache)@ is Some && final(cache)@->Some_0.status.enabled == r,
        old(cache)@ is None || now >= old(cache)@->Some_0.checked_at_ms + 30_000 ==> exists|
            answer: (Option<AutostartStatus>, u64),
        |
            {
                &&& #[trigger] call_ensures(read, (), answer)
                &&& final(cache)@->Some_0.checked_at_ms == answer.1
                &&& answer.0 matches Some(status) ==> final(cache)@->Some_0.status == status@
                &&& answer.0 is None ==> !r
            },
{
}

/// A switch succeeds exactly if it shows afterwards, and is remembered only then.
pub proof fn lemma_switch_is_verified(
    cache: &mut StatusCache,
    enabled: bool,
    verified: AutostartStatus,
    now: u64,
    r: Result<AutostartStatus, String>,
)
    requires
        call_ensures(set_enabled, (cache, enabled, verified, now), r),
    ensures
        r is Ok <==> verified@.enabled == enabled,
        r is Ok ==> r->Ok_0@ == verified@ && final(cache)@ is Some
            && final(cache)@->Some_0.status.enabled == enabled
            && final(cache)@->Some_0.checked_at_ms == now,
        r is Err ==> final(cache)@ == old(cache)@,
{
}

/// The program is started from where it lies, in its own directory, by a shortcut
/// in the data of the user; a place given for these data comes before the usual
/// one.  Without such a place or without the path of the program nothing is known.
pub proof fn lemma_current(env: &StartupEnvironment, r: Result<StartupManager, String>)
    requires
        call_ensures(StartupManager::current, (env,), r),
    ensures
        r is Ok <==> env.executable is Some && (env.app_data_root is Some || env.app_data is Some),
        r matches Ok(m) ==> {
            &&& m.target_path@ == env.executable->Some_0@
            &&& m.arguments@ == "--autostart"@
            &&& m.working_dir@ == crate::paths::parent_of(m.target_path@)
            &&& env.app_data_root matches Some(root) ==> m.link_path@ == startup_link_path_of(root@)
            &&& env.app_data_root is None ==> m.link_path@ == startup_link_path_of(
                env.app_data->Some_0@,
            )
            &&& m.resolved_target@ == env.resolved_target@
            &&& m.resolved_working_dir@ == env.resolved_working_dir@
        },
        env.app_data_root is None && env.app_data is None ==> r->Err_0@ == "APPDATA 未设置"@,
{
}

/// A script is waited for until it ends, but no longer than half a minute; its
/// output counts where it succeeded, and else what it said of the error.
pub proof fn lemma_scripts(
    finished: bool,
    elapsed: u64,
    wait: ScriptWait,
    success: bool,
    stdout: String,
    stderr: &str,
    r: Result<String, String>,
)
    requires
        call_ensures(script_wait, (finished, elapsed), wait),
        call_ensures(script_result, (success, stdout, stderr), r),
    ensures
        wait == ScriptWait::Finished <==> finished,
        wait == ScriptWait::TimedOut <==> !finished && elapsed >= 30_000,
        r is Ok <==> success,
        success ==> r->Ok_0@ == stdout@,
        !success ==> crate::text::occurs_in(r->Err_0@, crate::text::trimmed(stderr@)),
{
    let none = Seq::<char>::empty();
    let (head, text) = ("PowerShell 快捷方式操作失败: "@, crate::text::trimmed(stderr@));
    let unknown = "未知错误"@;
    crate::text::lemma_occurrence(head, text, none, none);
    assert(head + text + none =~= head + text);
    if text.len() == 0 {
        crate::text::lemma_occurrence(head, text, unknown, none);
        assert(head + text + unknown =~= head + unknown);
    }
}

/// A shortcut is removed if it starts this program, with no regard to case; one of
/// another program stays, and the system says in the first byte of a value that
/// shortcuts are switched off.
pub proof fn lemma_shortcuts(
    info: &Option<ShortcutInfo>,
    target: &str,
    r: bool,
    value: &Option<Vec<u8>>,
    disabled: bool,
)
    requires
        call_ensures(removes_shortcut, (info, target), r),
        call_ensures(startup_folder_disabled, (value,), disabled),
    ensures
        info is None ==> !r,
        info matches Some(kept) ==> r == crate::text::same_ignoring_case(kept.target@, target@),
        value is None ==> !disabled,
        value matches Some(bytes) ==> (disabled <==> bytes@.len() > 0 && bytes@[0] == 3),
{
}

/// The program has an administrator's rights if the process has them, or if it is
/// set to be run with them.
pub proof fn lemma_elevation(
    is_admin: bool,
    layers: &str,
    r: bool,
    before: Seq<char>,
    after: Seq<char>,
)
    requires
        call_ensures(runs_elevated, (is_admin, layers), r),
    ensures
        is_admin ==> r,
        layers@ == before + "RUNASADMIN"@ + after ==> r,
        !is_admin && layers@.len() < 10 ==> !r,
{
    let none = Seq::<char>::empty();
    reveal_strlit("RUNASADMIN");
    crate::text::lemma_occurrence(before, "RUNASADMIN"@, after, none);
}

/// The values of earlier versions are removed beside the current one, and that of
/// the earliest only where asked.
pub proof fn lemma_obsolete_values(few: Vec<String>, all: Vec<String>)
    requires
        call_ensures(obsolete_run_values, (false,), few),
        call_ensures(obsolete_run_values, (true,), all),
    ensures
        few@.len() == 2 && all@.len() == 3,
        few@[0]@ == "AutoKeyRust"@ && all@[0]@ == few@[0]@ && all@[1]@ == few@[1]@,
        all@[2]@ == "AutoKey"@,
{
}

} // verus!
