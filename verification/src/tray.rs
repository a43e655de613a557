//! What the icon in the tray shows, and when it is shown anew.
use crate::autostart::{AutostartBackend, AutostartStatus};
use crate::text::{concat, concat3, same_text};
use vstd::prelude::*;

verus! {

/// How long an icon in the tray is good for, in milliseconds.
pub const TRAY_ICON_SYNC_INTERVAL_MS: u64 = 2000;

/// The greatest number under which the icon is looked for.
pub const TRAY_NOTIFY_ID_SEARCH_LIMIT: u32 = 16;

/// What the tray tells: whether the scheduler runs, and the profile.
#[derive(Debug)]
pub struct ShownState {
    pub is_running: bool,
    pub config_name: String,
}

/// The mathematical content of a [`ShownState`].
pub struct ShownModel {
    pub is_running: bool,
    pub config_name: Seq<char>,
}

impl View for ShownState {
    type V = ShownModel;

    open spec fn view(&self) -> ShownModel {
        ShownModel { is_running: self.is_running, config_name: self.config_name@ }
    }
}

impl ShownState {
    /// A state.
    pub fn new(is_running: bool, config_name: &str) -> (r: ShownState)
        ensures
            r@ == (ShownModel { is_running, config_name: config_name@ }),
    {
        ShownState { is_running, config_name: config_name.to_owned() }
    }

    /// Whether this is the given state.
    pub fn shows(&self, is_running: bool, config_name: &str) -> (r: bool)
        ensures
            r == (self@ == ShownModel { is_running, config_name: config_name@ }),
    {
        self.is_running == is_running && same_text(&self.config_name, config_name)
    }
}

/// Whether a state is the one that was shown last.
pub open spec fn is_shown(last: Option<ShownState>, state: ShownModel) -> bool {
    match last {
        Some(last) => last@ == state,
        None => false,
    }
}

/// Whether a state is the one that was shown last.
pub fn shown_last(last: &Option<ShownState>, is_running: bool, config_name: &str) -> (r: bool)
    ensures
        r == is_shown(*last, ShownModel { is_running, config_name: config_name@ }),
{
    match last {
        Some(last) => last.shows(is_running, config_name),
        None => false,
    }
}

/// The name of a state.
pub open spec fn state_name(is_running: bool) -> Seq<char> {
    if is_running {
        "运行中"@
    } else {
        "已停止"@
    }
}

/// The text that is shown when the pointer rests on the icon.
pub open spec fn tooltip_of(is_running: bool, config_name: Seq<char>) -> Seq<char> {
    "调度器 - "@ + config_name + " - "@ + state_name(is_running)
}

/// The text that is shown when the pointer rests on the icon.
pub fn tooltip(is_running: bool, config_name: &str) -> (r: String)
    ensures
        r@ == tooltip_of(is_running, config_name@),
{
    let head = concat3("调度器 - ", config_name, " - ");
    concat(
        &head,
        if is_running {
            "运行中"
        } else {
            "已停止"
        },
    )
}

/// What is done about the icon in the tray.
#[derive(Debug, Clone, Copy, PartialEq, Eq, Structural)]
pub enum IconRefresh {
    /// Nothing: it is still good.
    Skip,
    /// The icon at hand is shown again.
    ShowAgain,
    /// A new icon is drawn and shown.
    Draw,
}

/// What is done about the icon, given whether its state is the one shown last,
/// whether there is an icon at hand, and when it was shown.
pub fn icon_refresh(
    same_state: bool,
    has_icon: bool,
    last_refresh_ms: Option<u64>,
    now_ms: u64,
) -> (r: IconRefresh)
    ensures
        r == if same_state && last_refresh_ms is Some && now_ms - last_refresh_ms->Some_0
            < TRAY_ICON_SYNC_INTERVAL_MS {
            IconRefresh::Skip
        } else if !same_state || !has_icon {
            IconRefresh::Draw
        } else {
            IconRefresh::ShowAgain
        },
{
    let recent: bool = match last_refresh_ms {
        Some(last) => now_ms < last || now_ms - last < TRAY_ICON_SYNC_INTERVAL_MS,
        None => false,
    };
    if same_state && recent {
        IconRefresh::Skip
    } else if !same_state || !has_icon {
        IconRefresh::Draw
    } else {
        IconRefresh::ShowAgain
    }
}

/// The numbers from one to `n` without `cached`.
pub open spec fn other_ids(cached: Option<u32>, n: nat) -> Seq<u32>
    decreases n,
{
    if n == 0 {
        Seq::empty()
    } else {
        let rest = other_ids(cached, (n - 1) as nat);
        if cached == Some(n as u32) {
            rest
        } else {
            rest.push(n as u32)
        }
    }
}

/// The numbers under which the icon is looked for, in order: the one it had
/// last, then all others.
pub fn notify_id_candidates(cached: Option<u32>) -> (r: Vec<u32>)
    ensures
        r@ == (match cached {
            Some(id) => seq![id],
            None => Seq::empty(),
        }) + other_ids(cached, TRAY_NOTIFY_ID_SEARCH_LIMIT as nat),
{
    let mut out: Vec<u32> = Vec::new();
    if let Some(id) = cached {
        out.push(id);
    }
    let ghost head = out@;
    assert(head =~= match cached {
        Some(id) => seq![id],
        None => Seq::empty(),
    });
    let mut id: u32 = 0;
    assert(head + other_ids(cached, 0) =~= head);
    while id < TRAY_NOTIFY_ID_SEARCH_LIMIT
        invariant
            id <= TRAY_NOTIFY_ID_SEARCH_LIMIT,
            out@ == head + other_ids(cached, id as nat),
        decreases TRAY_NOTIFY_ID_SEARCH_LIMIT - id,
    {
        id = id + 1;
        let skipped: bool = match cached {
            Some(known) => known == id,
            None => false,
        };
        if !skipped {
            out.push(id);
        }
        assert(out@ =~= head + other_ids(cached, id as nat));
    }
    out
}

/// The icon is looked for under every number up to the limit, and under none
/// twice.
pub proof fn lemma_notify_ids(cached: Option<u32>, n: nat)
    requires
        n <= u32::MAX,
    ensures
        forall|id: u32|
            #[trigger] other_ids(cached, n).contains(id) <==> 1 <= id <= n && cached != Some(id),
        forall|i: int, j: int|
            #![trigger other_ids(cached, n)[i], other_ids(cached, n)[j]]
            0 <= i < j < other_ids(cached, n).len() ==> other_ids(cached, n)[i] < other_ids(
                cached,
                n,
            )[j],
    decreases n,
{
    if n > 0 {
        let rest = other_ids(cached, (n - 1) as nat);
        let all = other_ids(cached, n);
        lemma_notify_ids(cached, (n - 1) as nat);
        assert forall|id: u32| #[trigger] all.contains(id) <==> (1 <= id <= n && cached != Some(
            id,
        )) by {
            assert(rest.contains(id) <==> (1 <= id <= n - 1 && cached != Some(id)));
            if rest.contains(id) {
                let i = choose|i: int| 0 <= i < rest.len() && rest[i] == id;
                assert(all[i] == id);
            }
            if id == n && cached != Some(id) {
                assert(all[all.len() - 1] == id);
            }
            if all.contains(id) && id != n {
                let i = choose|i: int| 0 <= i < all.len() && all[i] == id;
                assert(rest[i] == id);
            }
        }
        assert forall|i: int, j: int|
            #![trigger all[i], all[j]]
            0 <= i < j < all.len() implies all[i] < all[j] by {
            assert(all[i] == rest[i]);
            if j < rest.len() {
                assert(all[j] == rest[j]);
            } else {
                assert(rest.contains(rest[i]));
            }
        }
    }
}

/// What an item of the tray's menu does.
#[derive(Debug, Clone, Copy, PartialEq, Eq, Structural)]
pub enum MenuAction {
    Show,
    Exit,
    ToggleAutostart,
    Nothing,
}

/// What an item of the tray's menu does.
pub fn menu_action(id: &str) -> (r: MenuAction)
    ensures
        r == if id@ == "exit"@ {
            MenuAction::Exit
        } else if id@ == "show"@ {
            MenuAction::Show
        } else if id@ == "autostart"@ {
            MenuAction::ToggleAutostart
        } else {
            MenuAction::Nothing
        },
{
    if same_text(id, "exit") {
        MenuAction::Exit
    } else if same_text(id, "show") {
        MenuAction::Show
    } else if same_text(id, "autostart") {
        MenuAction::ToggleAutostart
    } else {
        MenuAction::Nothing
    }
}

/// How a way of starting at login is named in messages.
pub open spec fn backend_name_of(backend: Option<AutostartBackend>) -> Seq<char> {
    match backend {
        Some(AutostartBackend::StartupShortcut) => "Some(StartupShortcut)"@,
        Some(AutostartBackend::ElevatedScheduledTask) => "Some(ElevatedScheduledTask)"@,
        None => "None"@,
    }
}

fn backend_name(backend: Option<AutostartBackend>) -> (r: String)
    ensures
        r@ == backend_name_of(backend),
{
    match backend {
        Some(AutostartBackend::StartupShortcut) => "Some(StartupShortcut)".to_owned(),
        Some(AutostartBackend::ElevatedScheduledTask) => "Some(ElevatedScheduledTask)".to_owned(),
        None => "None".to_owned(),
    }
}

/// What is shown after starting at login was switched.
pub open spec fn autostart_message_of(
    r: Result<crate::autostart::AutostartModel, Seq<char>>,
) -> Seq<char> {
    match r {
        Ok(status) => if status.enabled {
            "开机自启已启用 ("@ + backend_name_of(status.backend) + "): "@ + status.link_path
        } else {
            "开机自启已关闭并验证"@
        },
        Err(error) => "开机自启设置失败: "@ + error,
    }
}

/// What is shown after starting at login was switched.
pub fn autostart_message(result: &Result<AutostartStatus, String>) -> (r: String)
    ensures
        r@ == autostart_message_of(
            match *result {
                Ok(status) => Ok(status@),
                Err(error) => Err(error@),
            },
        ),
{
    match result {
        Ok(status) => if status.enabled {
            let head = concat3("开机自启已启用 (", &backend_name(status.backend), "): ");
            concat(&head, &status.link_path)
        } else {
            "开机自启已关闭并验证".to_owned()
        },
        Err(error) => concat("开机自启设置失败: ", error),
    }
}

/// What is logged after starting at login was switched.
pub open spec fn autostart_record_of(s: crate::autostart::AutostartModel) -> Seq<char> {
    "enabled="@ + (if s.enabled {
        "true"@
    } else {
        "false"@
    }) + " backend="@ + backend_name_of(s.backend) + " link="@ + s.link_path + " target="@
        + s.target_path + " args="@ + s.arguments + " working_dir="@ + s.working_dir
}

/// What is logged after starting at login was switched.
pub fn autostart_record(status: &AutostartStatus) -> (r: String)
    ensures
        r@ == autostart_record_of(status@),
{
    let enabled: &str = if status.enabled {
        "true"
    } else {
        "false"
    };
    let mut s = concat3("enabled=", enabled, " backend=");
    s = concat3(&s, &backend_name(status.backend), " link=");
    s = concat3(&s, &status.link_path, " target=");
    s = concat3(&s, &status.target_path, " args=");
    s = concat3(&s, &status.arguments, " working_dir=");
    concat(&s, &status.working_dir)
}

/// What is shown last is a state exactly if both the profile and whether the
/// scheduler runs are the same.
pub proof fn lemma_shown(last: ShownState, state: ShownModel)
    ensures
        is_shown(Some(last), state) <==> last.is_running == state.is_running && last.config_name@
            == state.config_name,
        !is_shown(None, state),
{
}

/// The text on the icon tells the profile and the state: no two profiles, and no
/// two states, have the same one.
pub proof fn lemma_tooltip(a: bool, x: Seq<char>, b: bool, y: Seq<char>)
    ensures
        tooltip_of(a, x) == tooltip_of(b, y) <==> a == b && x == y,
        crate::text::occurs_in(tooltip_of(a, x), x),
        state_name(true) == "运行中"@,
        state_name(false) == "已停止"@,
{
    reveal_strlit("运行中");
    reveal_strlit("已停止");
    reveal_strlit(" - ");
    reveal_strlit("调度器 - ");
    let head = "调度器 - "@;
    let (s, t) = (tooltip_of(a, x), tooltip_of(b, y));
    crate::text::lemma_occurrence(head, x, " - "@ + state_name(a), x);
    assert(s =~= head + x + (" - "@ + state_name(a)));
    assert(state_name(a).len() == 3 && state_name(b).len() == 3);
    assert(s.len() == head.len() + x.len() + 6);
    assert(t.len() == head.len() + y.len() + 6);
    assert(s.subrange(head.len() as int, s.len() - 6) =~= x);
    assert(t.subrange(head.len() as int, t.len() - 6) =~= y);
    assert(s[s.len() - 3] == state_name(a)[0]);
    assert(t[t.len() - 3] == state_name(b)[0]);
}

/// What is shown after a switch tells the way of starting and the shortcut where
/// it is on, the error where it failed, and else that it is off.
pub proof fn lemma_autostart_message(s: crate::autostart::AutostartModel, error: Seq<char>)
    ensures
        s.enabled ==> crate::text::occurs_in(autostart_message_of(Ok(s)), s.link_path)
            && crate::text::occurs_in(autostart_message_of(Ok(s)), backend_name_of(s.backend)),
        !s.enabled ==> autostart_message_of(Ok(s)) == "开机自启已关闭并验证"@,
        crate::text::occurs_in(autostart_message_of(Err(error)), error),
{
    let none = Seq::<char>::empty();
    let name = backend_name_of(s.backend);
    let before = "开机自启已启用 ("@ + name + "): "@;
    crate::text::lemma_occurrence(before, s.link_path, none, none);
    assert(before + s.link_path + none =~= before + s.link_path);
    crate::text::lemma_occurrence("开机自启已启用 ("@, name, "): "@ + s.link_path, none);
    assert("开机自启已启用 ("@ + name + ("): "@ + s.link_path) =~= before + s.link_path);
    crate::text::lemma_occurrence("开机自启设置失败: "@, error, none, none);
    assert("开机自启设置失败: "@ + error + none =~= "开机自启设置失败: "@ + error);
}

/// The ways of starting at login have names of their own.
pub proof fn lemma_backend_names(a: Option<AutostartBackend>, b: Option<AutostartBackend>)
    ensures
        backend_name_of(a) == backend_name_of(b) <==> a == b,
{
    reveal_strlit("Some(StartupShortcut)");
    reveal_strlit("Some(ElevatedScheduledTask)");
    reveal_strlit("None");
    match (a, b) {
        (
            Some(AutostartBackend::StartupShortcut),
            Some(AutostartBackend::ElevatedScheduledTask),
        ) => {},
        (
            Some(AutostartBackend::ElevatedScheduledTask),
            Some(AutostartBackend::StartupShortcut),
        ) => {},
        _ => {},
    }
    assert("Some(StartupShortcut)"@.len() == 21 && "None"@.len() == 4
        && "Some(ElevatedScheduledTask)"@.len() == 27);
}

/// What is logged after a switch names each value with what it is.
pub proof fn lemma_autostart_record(s: crate::autostart::AutostartModel)
    ensures
        ({
            let record = autostart_record_of(s);
            &&& crate::text::begins_with(record, "enabled="@ + if s.enabled {
                "true"@
            } else {
                "false"@
            })
            &&& crate::text::occurs_in(record, " backend="@ + backend_name_of(s.backend))
            &&& crate::text::occurs_in(record, " link="@ + s.link_path)
            &&& crate::text::occurs_in(record, " target="@ + s.target_path)
            &&& crate::text::occurs_in(record, " args="@ + s.arguments)
            &&& crate::text::occurs_in(record, " working_dir="@ + s.working_dir)
        }),
{
    let none = Seq::<char>::empty();
    let record = autostart_record_of(s);
    let enabled = "enabled="@ + if s.enabled {
        "true"@
    } else {
        "false"@
    };
    let backend = " backend="@ + backend_name_of(s.backend);
    let link = " link="@ + s.link_path;
    let target = " target="@ + s.target_path;
    let arguments = " args="@ + s.arguments;
    let directory = " working_dir="@ + s.working_dir;
    assert(record =~= none + enabled + (backend + link + target + arguments + directory));
    assert(record =~= enabled + (backend + link + target + arguments + directory));
    crate::text::lemma_occurrence(none, enabled, backend + link + target + arguments + directory, none);
    assert(record =~= enabled + backend + (link + target + arguments + directory));
    crate::text::lemma_occurrence(enabled, backend, link + target + arguments + directory, none);
    assert(record =~= (enabled + backend) + link + (target + arguments + directory));
    crate::text::lemma_occurrence(enabled + backend, link, target + arguments + directory, none);
    assert(record =~= (enabled + backend + link) + target + (arguments + directory));
    crate::text::lemma_occurrence(enabled + backend + link, target, arguments + directory, none);
    assert(record =~= (enabled + backend + link + target) + arguments + directory);
    crate::text::lemma_occurrence(enabled + backend + link + target, arguments, directory, none);
    assert(record =~= (enabled + backend + link + target + arguments) + directory + none);
    crate::text::lemma_occurrence(
        enabled + backend + link + target + arguments,
        directory,
        none,
        none,
    );
}

/// The icon is drawn anew for a new state, or where there is none; for the same
/// state it is shown again once two seconds have passed, and left alone before.
pub proof fn lemma_refreshing(
    same_state: bool,
    has_icon: bool,
    last: Option<u64>,
    now: u64,
    r: IconRefresh,
)
    requires
        call_ensures(icon_refresh, (same_state, has_icon, last, now), r),
    ensures
        !same_state ==> r == IconRefresh::Draw,
        same_state && last is Some && now < last->Some_0 + 2000 ==> r == IconRefresh::Skip,
        same_state && (last is None || now >= last->Some_0 + 2000) ==> r == if has_icon {
            IconRefresh::ShowAgain
        } else {
            IconRefresh::Draw
        },
{
}

/// The identifiers that are tried are that known before, first, and those from 1
/// to 16; each of them once.
pub proof fn lemma_tried_ids(cached: Option<u32>, r: Vec<u32>, id: u32, i: int, j: int)
    requires
        call_ensures(notify_id_candidates, (cached,), r),
    ensures
        cached matches Some(known) ==> r@.len() > 0 && r@[0] == known,
        r@.contains(id) <==> cached == Some(id) || 1 <= id <= 16,
        0 <= i < j < r@.len() ==> r@[i] != r@[j],
        r@.len() <= 17,
{
    lemma_ids_tried(cached, 16, id);
    lemma_ids_rise(cached, 16);
    let rest = other_ids(cached, 16);
    let first = match cached {
        Some(known) => seq![known],
        None => Seq::empty(),
    };
    assert(r@ == first + rest);
    if cached == Some(id) {
        assert(r@[0] == id);
    }
    if rest.contains(id) {
        let k = choose|k: int| 0 <= k < rest.len() && rest[k] == id;
        assert(r@[first.len() + k] == id);
    }
    if 0 <= i < j < r@.len() {
        let (u, v) = (i - first.len(), j - first.len());
        assert(r@[j] == rest[v]);
        if u < 0 {
            lemma_ids_tried(cached, 16, r@[i]);
            assert(cached == Some(r@[i]));
            assert(rest.contains(rest[v]));
        } else {
            assert(r@[i] == rest[u]);
        }
    }
}

proof fn lemma_ids_tried(cached: Option<u32>, n: nat, id: u32)
    requires
        n <= 16,
    ensures
        other_ids(cached, n).contains(id) <==> 1 <= id <= n && cached != Some(id),
        other_ids(cached, n).len() <= n,
    decreases n,
{
    if n > 0 {
        lemma_ids_tried(cached, (n - 1) as nat, id);
        let rest = other_ids(cached, (n - 1) as nat);
        if cached != Some(n as u32) {
            let all = rest.push(n as u32);
            if id == n {
                assert(all[rest.len() as int] == id);
            }
            if rest.contains(id) {
                let k = choose|k: int| 0 <= k < rest.len() && rest[k] == id;
                assert(all[k] == id);
            }
            if all.contains(id) && id != n {
                let k = choose|k: int| 0 <= k < all.len() && all[k] == id;
                assert(rest[k] == id);
            }
        }
    }
}

proof fn lemma_ids_rise(cached: Option<u32>, n: nat)
    requires
        n <= 16,
    ensures
        forall|i: int, j: int|
            0 <= i < j < other_ids(cached, n).len() ==> #[trigger] other_ids(cached, n)[i]
                < #[trigger] other_ids(cached, n)[j],
        forall|i: int|
            0 <= i < other_ids(cached, n).len() ==> #[trigger] other_ids(cached, n)[i] <= n,
    decreases n,
{
    if n > 0 {
        lemma_ids_rise(cached, (n - 1) as nat);
        let (all, rest) = (other_ids(cached, n), other_ids(cached, (n - 1) as nat));
        assert forall|i: int| 0 <= i < all.len() implies #[trigger] all[i] <= n by {
            if i < rest.len() {
                assert(all[i] == rest[i]);
            }
        }
        assert forall|i: int, j: int| 0 <= i < j < all.len() implies #[trigger] all[i]
            < #[trigger] all[j] by {
            assert(all[i] == rest[i]);
            if j < rest.len() {
                assert(all[j] == rest[j]);
            }
        }
    }
}

/// The three entries of the menu do what they say, and nothing else does anything.
pub proof fn lemma_menu(id: &str, r: MenuAction)
    requires
        call_ensures(menu_action, (id,), r),
    ensures
        r == MenuAction::Exit <==> id@ == "exit"@,
        r == MenuAction::Show <==> id@ == "show"@,
        r == MenuAction::ToggleAutostart <==> id@ == "autostart"@,
{
    reveal_strlit("exit");
    reveal_strlit("show");
    reveal_strlit("autostart");
    assert("exit"@[0] == 'e' && "show"@[0] == 's' && "autostart"@[0] == 'a');
}

} // verus!
