//! The window that keys are sent to: how it is chosen, remembered and found to
//! be the same one later.
//!
//! What the system says of a window is passed in as plain values.
use crate::order::{comes_before, to_lowercase};
use crate::text::{concat, format_hexadecimal, same_text, starts_with, to_chars};
use vstd::prelude::*;

verus! {

/// The style of tool windows, which are never bound.
pub const TOOL_WINDOW_STYLE: u32 = 0x80;

/// How the title of the program's own main window begins.
pub const OWN_TITLE_MARKER: &'static str = "调度器";

// ---------------------------------------------------------------------------
// Identity
// ---------------------------------------------------------------------------
/// A window as it was when it was bound.
#[derive(Debug)]
pub struct BoundWindow {
    pub hwnd: isize,
    pub process_id: u32,
    pub thread_id: u32,
    pub class_name: String,
    pub title_at_bind: String,
}

/// The mathematical content of a [`BoundWindow`].
#[verifier::ext_equal]
pub struct BoundWindowModel {
    pub hwnd: isize,
    pub process_id: u32,
    pub thread_id: u32,
    pub class_name: Seq<char>,
    pub title_at_bind: Seq<char>,
}

impl View for BoundWindow {
    type V = BoundWindowModel;

    open spec fn view(&self) -> BoundWindowModel {
        BoundWindowModel {
            hwnd: self.hwnd,
            process_id: self.process_id,
            thread_id: self.thread_id,
            class_name: self.class_name@,
            title_at_bind: self.title_at_bind@,
        }
    }
}

impl Clone for BoundWindow {
    fn clone(&self) -> (r: BoundWindow)
        ensures
            r@ == self@,
    {
        BoundWindow {
            hwnd: self.hwnd,
            process_id: self.process_id,
            thread_id: self.thread_id,
            class_name: self.class_name.clone(),
            title_at_bind: self.title_at_bind.clone(),
        }
    }
}

/// What the system says of a bound window now.
#[derive(Debug)]
pub struct WindowObservation {
    /// The process that owned the window still runs.
    pub process_alive: bool,
    /// The handle is that of a window.
    pub is_window: bool,
    /// The thread and the process that own the window; zero if unknown.
    pub thread_id: u32,
    pub process_id: u32,
    /// The class of the window, if it could be read.
    pub class_name: Option<String>,
}

/// Whether a handle is that of a window.
pub fn is_window_valid(hwnd: isize, is_window: bool) -> (r: bool)
    ensures
        r == (hwnd != 0 && is_window),
{
    hwnd != 0 && is_window
}

/// The thread and the process that own a window, if both are known.
pub fn window_owner(hwnd: isize, is_window: bool, thread_id: u32, process_id: u32) -> (r: Option<
    (u32, u32),
>)
    ensures
        r == if hwnd != 0 && is_window && thread_id != 0 && process_id != 0 {
            Some((thread_id, process_id))
        } else {
            None
        },
{
    if is_window_valid(hwnd, is_window) && thread_id != 0 && process_id != 0 {
        Some((thread_id, process_id))
    } else {
        None
    }
}

/// Whether a window is still the one that was bound: its process runs, and the
/// handle, its owners and its class are those of before.
pub open spec fn same_window(target: BoundWindowModel, seen: WindowObservation) -> bool {
    &&& seen.process_alive
    &&& target.hwnd != 0
    &&& seen.is_window
    &&& seen.thread_id != 0
    &&& seen.process_id != 0
    &&& seen.thread_id == target.thread_id
    &&& seen.process_id == target.process_id
    &&& crate::config::text_of(seen.class_name) == Some(target.class_name)
}

impl BoundWindow {
    /// The handle of the window.
    pub fn hwnd(&self) -> (r: isize)
        ensures
            r == self@.hwnd,
    {
        self.hwnd
    }

    /// The title of the window: the current one, or that of before where there
    /// is none.
    pub fn title(&self, current: String) -> (r: String)
        ensures
            r@ == if current@.len() == 0 {
                self@.title_at_bind
            } else {
                current@
            },
    {
        if to_chars(&current).len() == 0 {
            self.title_at_bind.clone()
        } else {
            current
        }
    }

    /// Whether the window is still the one that was bound.
    pub fn validate(&self, seen: &WindowObservation) -> (r: bool)
        ensures
            r == same_window(self@, *seen),
    {
        if !seen.process_alive || !is_window_valid(self.hwnd, seen.is_window) {
            return false;
        }
        match window_owner(self.hwnd, seen.is_window, seen.thread_id, seen.process_id) {
            None => false,
            Some((thread_id, process_id)) => process_id == self.process_id && thread_id
                == self.thread_id && match &seen.class_name {
                Some(name) => same_text(name, &self.class_name),
                None => false,
            },
        }
    }
}

// ---------------------------------------------------------------------------
// Which windows can be bound
// ---------------------------------------------------------------------------
/// What decides whether a window can be bound.
#[derive(Debug, Clone, Copy, PartialEq, Eq, Structural)]
pub struct WindowFacts {
    pub hwnd: isize,
    pub is_window: bool,
    /// The process that owns the window, and the program's own one.
    pub process_id: u32,
    pub own_process_id: u32,
    /// The handles of the desktop, of the shell and of the shell's root.
    pub desktop: isize,
    pub shell: isize,
    pub shell_root: isize,
    pub visible: bool,
    pub extended_style: u32,
}

/// Whether a window is one of the program itself.
pub open spec fn own_window(f: WindowFacts) -> bool {
    f.hwnd != 0 && f.is_window && f.process_id == f.own_process_id
}

/// Whether a window is one of the program itself.
pub fn is_own_process_window(facts: &WindowFacts) -> (r: bool)
    ensures
        r == own_window(*facts),
{
    is_window_valid(facts.hwnd, facts.is_window) && facts.process_id == facts.own_process_id
}

/// Whether a window is part of the desktop.
pub open spec fn part_of_desktop(f: WindowFacts) -> bool {
    f.hwnd == 0 || f.hwnd == f.desktop || f.hwnd == f.shell || f.hwnd == f.shell_root
}

/// Whether a window is part of the desktop.
pub fn is_shell_or_desktop(facts: &WindowFacts) -> (r: bool)
    ensures
        r == part_of_desktop(*facts),
{
    facts.hwnd == 0 || facts.hwnd == facts.desktop || facts.hwnd == facts.shell || facts.hwnd
        == facts.shell_root
}

/// Whether a window can be bound: a visible window of another program that is
/// neither part of the desktop nor a tool window.
pub open spec fn bindable(f: WindowFacts) -> bool {
    &&& f.hwnd != 0
    &&& f.is_window
    &&& f.process_id != f.own_process_id
    &&& !part_of_desktop(f)
    &&& f.visible
    &&& f.extended_style & TOOL_WINDOW_STYLE == 0
}

/// Whether a window can be bound.
pub fn is_bindable_window(facts: &WindowFacts) -> (r: bool)
    ensures
        r == bindable(*facts),
{
    if !is_window_valid(facts.hwnd, facts.is_window) || is_own_process_window(facts) {
        return false;
    }
    if is_shell_or_desktop(facts) || !facts.visible {
        return false;
    }
    facts.extended_style & TOOL_WINDOW_STYLE == 0
}

/// The first window of a list that can be bound.
pub open spec fn first_bindable(candidates: Seq<WindowFacts>) -> Option<isize>
    decreases candidates.len(),
{
    if candidates.len() == 0 {
        None
    } else if bindable(candidates[0]) {
        Some(candidates[0].hwnd)
    } else {
        first_bindable(candidates.subrange(1, candidates.len() as int))
    }
}

/// The window to bind for one that was pointed at: the first of its root, its
/// root owner and itself that can be bound.
pub fn bindable_root_hwnd(is_window: bool, candidates: &Vec<WindowFacts>) -> (r: Option<isize>)
    ensures
        r == if is_window {
            first_bindable(candidates@)
        } else {
            None
        },
{
    if !is_window {
        return None;
    }
    let mut i: usize = 0;
    assert(candidates@.subrange(0, candidates@.len() as int) =~= candidates@);
    while i < candidates.len()
        invariant
            is_window,
            i <= candidates@.len(),
            first_bindable(candidates@) == first_bindable(
                candidates@.subrange(i as int, candidates@.len() as int),
            ),
        decreases candidates@.len() - i,
    {
        if is_bindable_window(&candidates[i]) {
            return Some(candidates[i].hwnd);
        }
        let ghost rest = candidates@.subrange(i as int, candidates@.len() as int);
        assert(rest.subrange(1, rest.len() as int) =~= candidates@.subrange(
            i + 1,
            candidates@.len() as int,
        ));
        i = i + 1;
    }
    None
}

/// A window that can be bound is never one of the program itself.
pub proof fn lemma_own_window_is_not_bound(candidates: Seq<WindowFacts>)
    ensures
        first_bindable(candidates) matches Some(hwnd) ==> exists|i: int|
            0 <= i < candidates.len() && (#[trigger] candidates[i]).hwnd == hwnd && bindable(
                candidates[i],
            ) && !own_window(candidates[i]),
    decreases candidates.len(),
{
    if candidates.len() > 0 && !bindable(candidates[0]) {
        let rest = candidates.subrange(1, candidates.len() as int);
        lemma_own_window_is_not_bound(rest);
        if let Some(hwnd) = first_bindable(rest) {
            let i = choose|i: int|
                0 <= i < rest.len() && (#[trigger] rest[i]).hwnd == hwnd && bindable(rest[i])
                    && !own_window(rest[i]);
            assert(candidates[i + 1] == rest[i]);
        }
    }
}

/// Whether a window is the program's own main window.
pub fn is_own_main_window(process_id: u32, own_process_id: u32, title: &str) -> (r: bool)
    ensures
        r == (process_id == own_process_id && crate::text::begins_with(title@, OWN_TITLE_MARKER@)),
{
    process_id == own_process_id && starts_with(title, OWN_TITLE_MARKER)
}

// ---------------------------------------------------------------------------
// Binding
// ---------------------------------------------------------------------------
/// What could be learned of a window that is to be bound.
#[derive(Debug)]
pub struct WindowCapture {
    /// The window to bind for the one that was pointed at.
    pub root: Option<isize>,
    /// The thread and the process that own it.
    pub owner: Option<(u32, u32)>,
    pub class_name: Option<String>,
    pub title: String,
    /// Why its process could not be opened, if it could not.
    pub process_error: Option<String>,
    /// What the system said of it after all that.
    pub seen: WindowObservation,
}

/// The window that is bound for what was learned of it, or why it is not.
pub open spec fn captured(c: WindowCapture) -> Result<BoundWindowModel, Seq<char>> {
    match (c.root, c.owner, c.class_name) {
        (None, _, _) => Err("未找到可绑定的目标窗口"@),
        (Some(_), None, _) => Err("无法读取目标窗口身份"@),
        (Some(_), Some(_), None) => Err("无法读取目标窗口类"@),
        (Some(hwnd), Some(owner), Some(class_name)) => {
            let target = BoundWindowModel {
                hwnd,
                process_id: owner.1,
                thread_id: owner.0,
                class_name: class_name@,
                title_at_bind: c.title@,
            };
            if class_name@.len() == 0 {
                Err("目标窗口类为空"@)
            } else if let Some(error) = c.process_error {
                Err(error@)
            } else if !same_window(target, c.seen) {
                Err("目标窗口在绑定过程中已变化，请重试"@)
            } else {
                Ok(target)
            }
        },
    }
}

/// The result of an attempt to bind, by its content.
pub open spec fn capture_outcome(r: Result<BoundWindow, String>) -> Result<
    BoundWindowModel,
    Seq<char>,
> {
    match r {
        Ok(target) => Ok(target@),
        Err(error) => Err(error@),
    }
}

/// The window that is bound for what was learned of it, or why it is not.
pub fn capture_bound_window(capture: WindowCapture) -> (r: Result<BoundWindow, String>)
    ensures
        capture_outcome(r) == captured(capture),
{
    let hwnd: isize = match capture.root {
        Some(hwnd) => hwnd,
        None => {
            return Err("未找到可绑定的目标窗口".to_owned());
        },
    };
    let (thread_id, process_id): (u32, u32) = match capture.owner {
        Some(owner) => owner,
        None => {
            return Err("无法读取目标窗口身份".to_owned());
        },
    };
    let class_name = match capture.class_name {
        Some(class_name) => class_name,
        None => {
            return Err("无法读取目标窗口类".to_owned());
        },
    };
    if to_chars(&class_name).len() == 0 {
        return Err("目标窗口类为空".to_owned());
    }
    if let Some(error) = capture.process_error {
        return Err(error);
    }
    let target = BoundWindow {
        hwnd,
        process_id,
        thread_id,
        class_name,
        title_at_bind: capture.title,
    };
    if target.validate(&capture.seen) {
        Ok(target)
    } else {
        Err("目标窗口在绑定过程中已变化，请重试".to_owned())
    }
}

/// The binding as it was at some time.
#[derive(Debug)]
pub struct BindingSnapshot {
    generation: u64,
    target: BoundWindow,
}

/// The mathematical content of a [`BindingSnapshot`].
pub struct SnapshotModel {
    pub generation: u64,
    pub target: BoundWindowModel,
}

impl View for BindingSnapshot {
    type V = SnapshotModel;

    closed spec fn view(&self) -> SnapshotModel {
        SnapshotModel { generation: self.generation, target: self.target@ }
    }
}

impl BindingSnapshot {
    /// The window that was bound.
    pub fn target(&self) -> (r: &BoundWindow)
        ensures
            r@ == self@.target,
    {
        &self.target
    }
}

/// Which window is bound.  Every change gets a new generation, by which a
/// snapshot taken before it is told from one taken after it.
pub struct WindowBinding {
    generation: u64,
    target: Option<BoundWindow>,
}

/// The mathematical content of a [`WindowBinding`].
pub struct BindingModel {
    pub generation: u64,
    pub target: Option<BoundWindowModel>,
}

impl View for WindowBinding {
    type V = BindingModel;

    closed spec fn view(&self) -> BindingModel {
        BindingModel {
            generation: self.generation,
            target: match self.target {
                Some(target) => Some(target@),
                None => None,
            },
        }
    }
}

/// The generation after a change.
pub open spec fn next_generation(generation: u64) -> u64 {
    if generation == u64::MAX {
        0
    } else {
        (generation + 1) as u64
    }
}

/// Whether a snapshot is of the binding as it is.
pub open spec fn is_of(snapshot: SnapshotModel, binding: BindingModel) -> bool {
    snapshot.generation == binding.generation
}

/// Whether a snapshot may be acted on through a window: it is of the binding as
/// it is, and the window is the bound one and, by what was `seen`, still itself.
pub open spec fn may_act(
    snapshot: SnapshotModel,
    binding: BindingModel,
    seen: WindowObservation,
    target: BoundWindowModel,
) -> bool {
    is_of(snapshot, binding) && binding.target == Some(target) && same_window(target, seen)
}

impl WindowBinding {
    /// No window is bound.
    pub fn new() -> (r: WindowBinding)
        ensures
            r@ == (BindingModel { generation: 0, target: None }),
    {
        WindowBinding { generation: 0, target: None }
    }

    /// Binds a window, if it could be captured; else the binding stays as it is.
    pub fn bind_candidate(&mut self, capture: WindowCapture) -> (r: Result<BindingSnapshot, String>)
        ensures
            match captured(capture) {
                Ok(target) => {
                    &&& r is Ok
                    &&& r->Ok_0@ == (SnapshotModel { generation: final(self)@.generation, target })
                    &&& final(self)@ == (BindingModel {
                        generation: next_generation(old(self)@.generation),
                        target: Some(target),
                    })
                },
                Err(error) => r is Err && r->Err_0@ == error && final(self)@ == old(self)@,
            },
    {
        match capture_bound_window(capture) {
            Err(error) => Err(error),
            Ok(target) => {
                self.generation = if self.generation == u64::MAX {
                    0
                } else {
                    self.generation + 1
                };
                self.target = Some(target.clone());
                Ok(BindingSnapshot { generation: self.generation, target })
            },
        }
    }

    /// Binds no window.
    pub fn clear(&mut self)
        ensures
            final(self)@ == (BindingModel {
                generation: next_generation(old(self)@.generation),
                target: None,
            }),
    {
        self.generation = if self.generation == u64::MAX {
            0
        } else {
            self.generation + 1
        };
        self.target = None;
    }

    /// The binding as it is now, if a window is bound.
    pub fn snapshot(&self) -> (r: Option<BindingSnapshot>)
        ensures
            match self@.target {
                Some(target) => r is Some && r->Some_0@ == (SnapshotModel {
                    generation: self@.generation,
                    target,
                }),
                None => r is None,
            },
    {
        match &self.target {
            Some(target) => Some(
                BindingSnapshot { generation: self.generation, target: target.clone() },
            ),
            None => None,
        }
    }

    /// Whether the binding is still that of the snapshot, and its window, of
    /// which `seen` was said, still the same one.
    pub fn is_current(&self, snapshot: &BindingSnapshot, seen: &WindowObservation) -> (r: bool)
        ensures
            r == (is_of(snapshot@, self@) && match self@.target {
                Some(target) => same_window(target, *seen),
                None => false,
            }),
    {
        self.generation == snapshot.generation && match &self.target {
            Some(target) => target.validate(seen),
            None => false,
        }
    }

    /// Binds no window, if the binding is still that of the snapshot.
    pub fn clear_if_current(&mut self, snapshot: &BindingSnapshot) -> (r: bool)
        ensures
            r == is_of(snapshot@, old(self)@),
            final(self)@ == if r {
                (BindingModel { generation: next_generation(old(self)@.generation), target: None })
            } else {
                old(self)@
            },
    {
        if self.generation != snapshot.generation {
            return false;
        }
        self.clear();
        true
    }

    /// Acts on the bound window, if the binding is still that of the snapshot
    /// and its window, of which `seen` was said, still the same one.  Otherwise
    /// `action` is not called.
    pub fn with_current_target<T, F: FnOnce(&BoundWindow) -> Result<T, String>>(
        &self,
        snapshot: &BindingSnapshot,
        seen: &WindowObservation,
        action: F,
    ) -> (r: Result<T, String>)
        requires
            forall|target: &BoundWindow|
                may_act(snapshot@, self@, *seen, target@) ==> #[trigger] call_requires(
                    action,
                    (target,),
                ),
        ensures
            if !is_of(snapshot@, self@) {
                r is Err && r->Err_0@ == "绑定窗口已更改"@
            } else {
                match self@.target {
                    None => r is Err && r->Err_0@ == "绑定窗口已解除"@,
                    Some(model) => if !same_window(model, *seen) {
                        r is Err && r->Err_0@ == "绑定窗口身份已变化或窗口已失效"@
                    } else {
                        exists|target: &BoundWindow|
                            target@ == model && #[trigger] call_ensures(action, (target,), r)
                    },
                }
            },
    {
        if self.generation != snapshot.generation {
            return Err("绑定窗口已更改".to_owned());
        }
        match &self.target {
            None => Err("绑定窗口已解除".to_owned()),
            Some(target) => if !target.validate(seen) {
                Err("绑定窗口身份已变化或窗口已失效".to_owned())
            } else {
                action(target)
            },
        }
    }
}

/// The generation after a number of changes.
pub open spec fn generation_after(generation: u64, changes: nat) -> u64
    decreases changes,
{
    if changes == 0 {
        generation
    } else {
        next_generation(generation_after(generation, (changes - 1) as nat))
    }
}

proof fn lemma_generation_counts(generation: u64, changes: nat)
    requires
        changes <= u64::MAX,
    ensures
        generation_after(generation, changes) == if generation + changes <= u64::MAX {
            generation + changes
        } else {
            generation + changes - u64::MAX - 1
        },
    decreases changes,
{
    if changes > 0 {
        lemma_generation_counts(generation, (changes - 1) as nat);
    }
}

/// Once the binding has changed, by up to 2^64 - 1 changes, a snapshot of before
/// is not of it any more: it can neither clear it nor act on any window.
pub proof fn lemma_stale_snapshot(
    snapshot: SnapshotModel,
    before: BindingModel,
    changes: nat,
    after: BindingModel,
)
    requires
        is_of(snapshot, before),
        0 < changes <= u64::MAX,
        after.generation == generation_after(before.generation, changes),
    ensures
        !is_of(snapshot, after),
        forall|seen: WindowObservation, target: BoundWindowModel| !may_act(snapshot, after, seen, target),
{
    lemma_generation_counts(before.generation, changes);
}

// ---------------------------------------------------------------------------
// Binding the window under the pointer
// ---------------------------------------------------------------------------
/// The handles of a list that are not zero, each where it occurs first.
pub open spec fn distinct_handles(handles: Seq<isize>) -> Seq<isize>
    decreases handles.len(),
{
    if handles.len() == 0 {
        Seq::empty()
    } else {
        let rest = distinct_handles(handles.drop_last());
        if handles.last() == 0 || rest.contains(handles.last()) {
            rest
        } else {
            rest.push(handles.last())
        }
    }
}

/// The windows to try in order: those of the list, without zero and without
/// repetition.
pub fn binding_candidates(handles: &Vec<isize>) -> (r: Vec<isize>)
    ensures
        r@ == distinct_handles(handles@),
{
    let mut out: Vec<isize> = Vec::new();
    let mut i: usize = 0;
    while i < handles.len()
        invariant
            i <= handles@.len(),
            out@ == distinct_handles(handles@.take(i as int)),
        decreases handles@.len() - i,
    {
        let hwnd: isize = handles[i];
        assert(handles@.take(i + 1).drop_last() =~= handles@.take(i as int));
        let mut seen: bool = false;
        let mut j: usize = 0;
        while j < out.len()
            invariant
                j <= out@.len(),
                seen == exists|k: int| 0 <= k < j && out@[k] == hwnd,
            decreases out@.len() - j,
        {
            if out[j] == hwnd {
                seen = true;
            }
            j = j + 1;
        }
        assert(seen == out@.contains(hwnd));
        if hwnd != 0 && !seen {
            out.push(hwnd);
        }
        i = i + 1;
    }
    assert(handles@.take(i as int) =~= handles@);
    out
}

/// Whether a window of a list was captured.
pub open spec fn first_captured(captures: Seq<WindowCapture>) -> Option<BoundWindowModel>
    decreases captures.len(),
{
    if captures.len() == 0 {
        None
    } else {
        match captured(captures[0]) {
            Ok(target) => Some(target),
            Err(_) => first_captured(captures.subrange(1, captures.len() as int)),
        }
    }
}

/// Binds the first window of a list that can be captured; where there is none,
/// no window is bound.
#[verifier::loop_isolation(false)]
pub fn bind_first_valid_window(binding: &mut WindowBinding, captures: Vec<WindowCapture>) -> (r:
    Option<BindingSnapshot>)
    ensures
        final(binding)@ == (BindingModel {
            generation: next_generation(old(binding)@.generation),
            target: first_captured(captures@),
        }),
        match first_captured(captures@) {
            Some(target) => r is Some && r->Some_0@ == (SnapshotModel {
                generation: final(binding)@.generation,
                target,
            }),
            None => r is None,
        },
{
    let ghost all = captures@;
    let mut rest = captures;
    while rest.len() > 0
        invariant
            binding@ == old(binding)@,
            first_captured(all) == first_captured(rest@),
        decreases rest@.len(),
    {
        let ghost before = rest@;
        let capture = rest.remove(0);
        assert(rest@ =~= before.subrange(1, before.len() as int));
        assert(capture == before[0]);
        if let Ok(snapshot) = binding.bind_candidate(capture) {
            return Some(snapshot);
        }
    }
    binding.clear();
    None
}

/// What is shown of a binding.
pub open spec fn binding_message(title: Option<Seq<char>>, hwnd: isize) -> Seq<char> {
    match title {
        Some(title) => if title.len() == 0 {
            "已绑定窗口 0x"@ + crate::text::hexadecimal((hwnd as usize) as nat)
        } else {
            "已绑定: "@ + title
        },
        None => "未找到可绑定窗口"@,
    }
}

/// What is shown of a binding: the title of the window, or its handle where it
/// has none.
pub fn binding_status(title: Option<String>, hwnd: isize) -> (r: String)
    ensures
        r@ == binding_message(crate::config::text_of(title), hwnd),
{
    match title {
        Some(title) => if to_chars(&title).len() == 0 {
            concat("已绑定窗口 0x", &format_hexadecimal(hwnd as usize as u64))
        } else {
            concat("已绑定: ", &title)
        },
        None => "未找到可绑定窗口".to_owned(),
    }
}

// ---------------------------------------------------------------------------
// The list of windows
// ---------------------------------------------------------------------------
/// A window that can be bound, with its title.
#[derive(Debug)]
pub struct WindowInfo {
    pub hwnd: isize,
    pub title: String,
}

/// The mathematical content of a [`WindowInfo`].
pub struct WindowInfoModel {
    pub hwnd: isize,
    pub title: Seq<char>,
}

impl View for WindowInfo {
    type V = WindowInfoModel;

    open spec fn view(&self) -> WindowInfoModel {
        WindowInfoModel { hwnd: self.hwnd, title: self.title@ }
    }
}

/// The windows of a list.
pub open spec fn window_models(windows: Seq<WindowInfo>) -> Seq<WindowInfoModel> {
    Seq::new(windows.len(), |i: int| windows[i]@)
}

/// Whether a window is listed before another one: by title, regardless of case.
pub open spec fn title_before(a: WindowInfoModel, b: WindowInfoModel) -> bool {
    crate::order::text_less(crate::order::lowercased(a.title), crate::order::lowercased(b.title))
}

/// A sorted list with one more window, which goes behind all that it is not
/// listed before.
pub open spec fn with_window(sorted: Seq<WindowInfoModel>, w: WindowInfoModel) -> Seq<
    WindowInfoModel,
>
    decreases sorted.len(),
{
    if sorted.len() > 0 && title_before(w, sorted.last()) {
        with_window(sorted.drop_last(), w).push(sorted.last())
    } else {
        sorted.push(w)
    }
}

/// The windows with a title, sorted; those with the same title stay in order.
pub open spec fn sorted_windows(found: Seq<WindowInfoModel>) -> Seq<WindowInfoModel>
    decreases found.len(),
{
    if found.len() == 0 {
        Seq::empty()
    } else {
        let rest = sorted_windows(found.drop_last());
        if found.last().title.len() == 0 {
            rest
        } else {
            with_window(rest, found.last())
        }
    }
}

/// A list without windows that repeat the handle of the one before.
pub open spec fn without_repeats(windows: Seq<WindowInfoModel>) -> Seq<WindowInfoModel>
    decreases windows.len(),
{
    if windows.len() == 0 {
        Seq::empty()
    } else {
        let rest = without_repeats(windows.drop_last());
        if rest.len() > 0 && rest.last().hwnd == windows.last().hwnd {
            rest
        } else {
            rest.push(windows.last())
        }
    }
}

fn is_title_before(a: &str, b: &str) -> (r: bool)
    ensures
        r == crate::order::text_less(crate::order::lowercased(a@), crate::order::lowercased(b@)),
{
    comes_before(&to_lowercase(a), &to_lowercase(b))
}

proof fn lemma_with_window_at(sorted: Seq<WindowInfoModel>, w: WindowInfoModel, k: int)
    requires
        0 <= k <= sorted.len(),
        k == 0 || !title_before(w, sorted[k - 1]),
        forall|i: int| k <= i < sorted.len() ==> title_before(w, #[trigger] sorted[i]),
    ensures
        with_window(sorted, w) == sorted.insert(k, w),
    decreases sorted.len(),
{
    if k < sorted.len() {
        assert(title_before(w, sorted[sorted.len() - 1]));
        lemma_with_window_at(sorted.drop_last(), w, k);
        assert(sorted.drop_last().insert(k, w).push(sorted.last()) =~= sorted.insert(k, w));
    } else {
        if sorted.len() > 0 {
            assert(sorted.last() == sorted[k - 1]);
        }
        assert(sorted.push(w) =~= sorted.insert(k, w));
    }
}

/// The list of windows to choose from, given those that were found: those with
/// a title, sorted by it, without repetition.
pub fn enumerate_windows(found: Vec<WindowInfo>) -> (r: Vec<WindowInfo>)
    ensures
        window_models(r@) == without_repeats(sorted_windows(window_models(found@))),
{
    let ghost all = window_models(found@);
    let mut found = found;
    let mut sorted: Vec<WindowInfo> = Vec::new();
    let ghost mut taken: int = 0;
    assert(all.take(0) =~= Seq::empty());
    while found.len() > 0
        invariant
            0 <= taken <= all.len(),
            window_models(found@) == all.subrange(taken, all.len() as int),
            window_models(sorted@) == sorted_windows(all.take(taken)),
        decreases found@.len(),
    {
        let ghost before = found@;
        assert(window_models(before).len() == all.len() - taken);
        let window = found.remove(0);
        assert(window@ == window_models(before)[0]);
        assert(window@ == all[taken]) by {
            assert(window_models(before)[0] == all.subrange(taken, all.len() as int)[0]);
        }
        assert(window_models(found@) =~= all.subrange(taken + 1, all.len() as int)) by {
            assert forall|i: int| 0 <= i < found@.len() implies found@[i]@ == all[taken + 1 + i] by {
                assert(found@[i] == before[i + 1]);
                assert(window_models(before)[i + 1] == all.subrange(
                    taken,
                    all.len() as int,
                )[i + 1]);
            }
        }
        assert(all.take(taken + 1).drop_last() =~= all.take(taken));
        let ghost listed = window_models(sorted@);
        if to_chars(&window.title).len() > 0 {
            let mut k: usize = sorted.len();
            while k > 0 && is_title_before(&window.title, &sorted[k - 1].title)
                invariant
                    k <= sorted@.len(),
                    window_models(sorted@) == listed,
                    forall|i: int|
                        k <= i < listed.len() ==> title_before(window@, #[trigger] listed[i]),
                decreases k,
            {
                k = k - 1;
                assert(listed[k as int] == sorted@[k as int]@);
            }
            proof {
                if k > 0 {
                    assert(listed[k - 1] == sorted@[k - 1]@);
                }
                lemma_with_window_at(listed, window@, k as int);
            }
            let ghost added = window@;
            sorted.insert(k, window);
            assert(window_models(sorted@) =~= listed.insert(k as int, added));
        }
        proof {
            taken = taken + 1;
        }
    }
    assert(all.take(taken) =~= all);
    let ghost listed = window_models(sorted@);
    let mut out: Vec<WindowInfo> = Vec::new();
    let ghost mut done: int = 0;
    while sorted.len() > 0
        invariant
            0 <= done <= listed.len(),
            window_models(sorted@) == listed.subrange(done, listed.len() as int),
            window_models(out@) == without_repeats(listed.take(done)),
        decreases sorted@.len(),
    {
        let ghost before = sorted@;
        assert(window_models(before).len() == listed.len() - done);
        let window = sorted.remove(0);
        assert(window@ == window_models(before)[0]);
        assert(window@ == listed[done]) by {
            assert(window_models(before)[0] == listed.subrange(done, listed.len() as int)[0]);
        }
        assert(window_models(sorted@) =~= listed.subrange(done + 1, listed.len() as int)) by {
            assert forall|i: int| 0 <= i < sorted@.len() implies sorted@[i]@ == listed[done + 1
                + i] by {
                assert(sorted@[i] == before[i + 1]);
                assert(window_models(before)[i + 1] == listed.subrange(
                    done,
                    listed.len() as int,
                )[i + 1]);
            }
        }
        assert(listed.take(done + 1).drop_last() =~= listed.take(done));
        let n: usize = out.len();
        let ghost kept = out@;
        if n > 0 && out[n - 1].hwnd == window.hwnd {
            assert(window_models(kept).last() == kept.last()@);
        } else {
            if n > 0 {
                assert(window_models(kept).last() == kept.last()@);
            }
            let ghost added = window@;
            out.push(window);
            assert(window_models(out@) =~= window_models(kept).push(added));
        }
        proof {
            done = done + 1;
        }
    }
    assert(listed.take(done) =~= listed);
    out
}

/// The windows stand in the order of their titles.
pub open spec fn in_title_order(windows: Seq<WindowInfoModel>) -> bool {
    forall|i: int, j: int|
        #![trigger windows[i], windows[j]]
        0 <= i < j < windows.len() ==> !title_before(windows[j], windows[i])
}

proof fn lemma_title_order_transitive(a: WindowInfoModel, b: WindowInfoModel, c: WindowInfoModel)
    requires
        !title_before(b, a),
        !title_before(c, b),
    ensures
        !title_before(c, a),
{
    let (x, y, z) = (
        crate::order::lowercased(a.title),
        crate::order::lowercased(b.title),
        crate::order::lowercased(c.title),
    );
    if crate::order::text_less(z, x) {
        crate::order::lemma_text_order_total(x, y);
        crate::order::lemma_text_order_total(y, z);
        if x != y {
            crate::order::lemma_text_order_transitive(z, x, y);
        }
    }
}

proof fn lemma_with_window(sorted: Seq<WindowInfoModel>, w: WindowInfoModel)
    requires
        in_title_order(sorted),
    ensures
        in_title_order(with_window(sorted, w)),
        with_window(sorted, w).len() == sorted.len() + 1,
        forall|x: WindowInfoModel|
            #[trigger] with_window(sorted, w).contains(x) <==> sorted.contains(x) || x == w,
    decreases sorted.len(),
{
    let r = with_window(sorted, w);
    if sorted.len() > 0 && title_before(w, sorted.last()) {
        let rest = sorted.drop_last();
        let inner = with_window(rest, w);
        lemma_with_window(rest, w);
        assert forall|x: WindowInfoModel| #[trigger] r.contains(x) <==> (sorted.contains(x) || x
            == w) by {
            if r.contains(x) {
                let i = choose|i: int| 0 <= i < r.len() && r[i] == x;
                if i < inner.len() {
                    assert(inner.contains(inner[i]));
                    if rest.contains(x) {
                        let j = choose|j: int| 0 <= j < rest.len() && rest[j] == x;
                        assert(sorted[j] == x);
                    }
                } else {
                    assert(sorted[sorted.len() - 1] == x);
                }
            }
            if sorted.contains(x) {
                let i = choose|i: int| 0 <= i < sorted.len() && sorted[i] == x;
                if i < rest.len() {
                    assert(rest[i] == x);
                    assert(inner.contains(x));
                    let j = choose|j: int| 0 <= j < inner.len() && inner[j] == x;
                    assert(r[j] == x);
                } else {
                    assert(r[r.len() - 1] == x);
                }
            }
            if x == w {
                assert(inner.contains(x));
                let j = choose|j: int| 0 <= j < inner.len() && inner[j] == x;
                assert(r[j] == x);
            }
        }
        assert forall|i: int, j: int|
            #![trigger r[i], r[j]]
            0 <= i < j < r.len() implies !title_before(r[j], r[i]) by {
            if j < inner.len() {
                assert(r[i] == inner[i] && r[j] == inner[j]);
            } else {
                assert(r[j] == sorted.last());
                assert(inner.contains(inner[i]));
                if rest.contains(r[i]) {
                    let k = choose|k: int| 0 <= k < rest.len() && rest[k] == r[i];
                    assert(sorted[k] == r[i]);
                    assert(!title_before(sorted[sorted.len() - 1], sorted[k]));
                } else {
                    crate::order::lemma_text_order_total(
                        crate::order::lowercased(w.title),
                        crate::order::lowercased(sorted.last().title),
                    );
                }
            }
        }
    } else {
        assert forall|x: WindowInfoModel| #[trigger] r.contains(x) <==> (sorted.contains(x) || x
            == w) by {
            if sorted.contains(x) {
                let i = choose|i: int| 0 <= i < sorted.len() && sorted[i] == x;
                assert(r[i] == x);
            }
            if x == w {
                assert(r[r.len() - 1] == x);
            }
        }
        assert forall|i: int, j: int|
            #![trigger r[i], r[j]]
            0 <= i < j < r.len() implies !title_before(r[j], r[i]) by {
            if j == sorted.len() {
                let last = sorted[sorted.len() - 1];
                if i < sorted.len() - 1 {
                    assert(!title_before(last, sorted[i]));
                    lemma_title_order_transitive(sorted[i], last, w);
                }
            } else {
                assert(r[i] == sorted[i] && r[j] == sorted[j]);
            }
        }
    }
}

/// Sorting the windows puts them in the order of their titles, keeps every one
/// that has a title, and adds none.
pub proof fn lemma_sorted_windows(found: Seq<WindowInfoModel>)
    ensures
        in_title_order(sorted_windows(found)),
        forall|x: WindowInfoModel|
            #[trigger] sorted_windows(found).contains(x) <==> found.contains(x) && x.title.len()
                > 0,
    decreases found.len(),
{
    if found.len() > 0 {
        let rest = found.drop_last();
        lemma_sorted_windows(rest);
        lemma_with_window(sorted_windows(rest), found.last());
        assert forall|x: WindowInfoModel| #[trigger] sorted_windows(found).contains(x) <==> (
        found.contains(x) && x.title.len() > 0) by {
            if rest.contains(x) {
                let i = choose|i: int| 0 <= i < rest.len() && rest[i] == x;
                assert(found[i] == x);
            }
            if x == found.last() {
                assert(found[found.len() - 1] == x);
            }
            if found.contains(x) && x != found.last() {
                let i = choose|i: int| 0 <= i < found.len() && found[i] == x;
                assert(rest[i] == x);
            }
            assert(sorted_windows(rest).contains(x) <==> (rest.contains(x) && x.title.len() > 0));
        }
    }
}

/// Of windows that follow each other in the list, no two have the same handle,
/// and no handle is lost.
pub proof fn lemma_without_repeats(windows: Seq<WindowInfoModel>)
    ensures
        forall|i: int|
            #![trigger without_repeats(windows)[i]]
            0 < i < without_repeats(windows).len() ==> without_repeats(windows)[i].hwnd
                != without_repeats(windows)[i - 1].hwnd,
        forall|i: int|
            #![trigger windows[i]]
            0 <= i < windows.len() ==> exists|j: int|
                0 <= j < without_repeats(windows).len() && (#[trigger] without_repeats(
                    windows,
                )[j]).hwnd == windows[i].hwnd,
    decreases windows.len(),
{
    let r = without_repeats(windows);
    if windows.len() > 0 {
        let inner = without_repeats(windows.drop_last());
        lemma_without_repeats(windows.drop_last());
        assert forall|i: int| #![trigger windows[i]] 0 <= i < windows.len() implies exists|j: int|
            0 <= j < r.len() && (#[trigger] r[j]).hwnd == windows[i].hwnd by {
            if i < windows.len() - 1 {
                assert(windows.drop_last()[i] == windows[i]);
                let j = choose|j: int|
                    0 <= j < inner.len() && (#[trigger] inner[j]).hwnd == windows[i].hwnd;
                assert(r[j] == inner[j]);
            } else {
                assert(r[r.len() - 1].hwnd == windows[i].hwnd);
            }
        }
        assert forall|i: int| #![trigger r[i]] 0 < i < r.len() implies r[i].hwnd
            != r[i - 1].hwnd by {
            assert(r[i - 1] == inner[i - 1]);
            if i < inner.len() {
                assert(r[i] == inner[i]);
            }
        }
    }
}

// ---------------------------------------------------------------------------
// What holds of windows and bindings
// ---------------------------------------------------------------------------
/// A window is still the bound one exactly if it exists, its process runs, and
/// the thread, the process and the class are those of before; its title may have
/// changed.
pub proof fn lemma_identity(target: BoundWindowModel, seen: WindowObservation, title: Seq<char>)
    ensures
        same_window(target, seen) ==> {
            &&& target.hwnd != 0 && seen.is_window && seen.process_alive
            &&& seen.thread_id == target.thread_id && target.thread_id != 0
            &&& seen.process_id == target.process_id && target.process_id != 0
            &&& seen.class_name is Some && seen.class_name->Some_0@ == target.class_name
        },
        target.hwnd != 0 && seen.is_window && seen.process_alive && seen.thread_id
            == target.thread_id && seen.process_id == target.process_id && target.thread_id != 0
            && target.process_id != 0 && seen.class_name is Some && seen.class_name->Some_0@
            == target.class_name ==> same_window(target, seen),
        same_window(BoundWindowModel { title_at_bind: title, ..target }, seen) == same_window(
            target,
            seen,
        ),
{
}

/// A window can be bound exactly if it is visible, belongs to another program,
/// is neither the desktop nor the shell, and is no tool window.
pub proof fn lemma_bindable(f: WindowFacts)
    ensures
        bindable(f) <==> {
            &&& f.hwnd != 0 && f.is_window && f.visible
            &&& f.process_id != f.own_process_id
            &&& f.hwnd != f.desktop && f.hwnd != f.shell && f.hwnd != f.shell_root
            &&& f.extended_style & 0x80 == 0
        },
        own_window(f) || part_of_desktop(f) ==> !bindable(f),
        own_window(f) <==> f.hwnd != 0 && f.is_window && f.process_id == f.own_process_id,
        part_of_desktop(f) <==> f.hwnd == 0 || f.hwnd == f.desktop || f.hwnd == f.shell || f.hwnd
            == f.shell_root,
{
}

/// Of several windows the first that can be bound is taken; none exactly if none
/// can.
pub proof fn lemma_first_bindable(candidates: Seq<WindowFacts>, at: int)
    ensures
        first_bindable(candidates) is None <==> forall|i: int|
            0 <= i < candidates.len() ==> !bindable(#[trigger] candidates[i]),
        0 <= at < candidates.len() && bindable(candidates[at]) && (forall|i: int|
            0 <= i < at ==> !bindable(#[trigger] candidates[i])) ==> first_bindable(candidates)
            == Some(candidates[at].hwnd),
    decreases candidates.len(),
{
    if candidates.len() > 0 {
        let rest = candidates.subrange(1, candidates.len() as int);
        lemma_first_bindable(rest, at - 1);
        assert(forall|i: int| 0 <= i < rest.len() ==> #[trigger] rest[i] == candidates[i + 1]);
        if !bindable(candidates[0]) {
            if forall|i: int| 0 <= i < rest.len() ==> !bindable(#[trigger] rest[i]) {
                assert forall|i: int| 0 <= i < candidates.len() implies !bindable(
                    #[trigger] candidates[i],
                ) by {
                    if i > 0 {
                        assert(!bindable(rest[i - 1]));
                    }
                }
            }
            if forall|i: int| 0 <= i < candidates.len() ==> !bindable(#[trigger] candidates[i]) {
                assert forall|i: int| 0 <= i < rest.len() implies !bindable(#[trigger] rest[i]) by {
                    assert(!bindable(candidates[i + 1]));
                }
            }
            if 0 < at < candidates.len() && forall|i: int|
                0 <= i < at ==> !bindable(#[trigger] candidates[i]) {
                assert forall|i: int| 0 <= i < at - 1 implies !bindable(#[trigger] rest[i]) by {
                    assert(!bindable(candidates[i + 1]));
                }
            }
        }
    }
}

/// A window is bound exactly if all is known of it and it was still the same at
/// the end; then it is bound as it was found.
pub proof fn lemma_captured(c: WindowCapture)
    ensures
        captured(c) is Ok <==> {
            &&& c.root is Some && c.root->Some_0 != 0
            &&& c.owner is Some && c.class_name is Some && c.process_error is None
            &&& c.class_name->Some_0@.len() > 0
            &&& c.seen.process_alive && c.seen.is_window
            &&& c.seen.thread_id != 0 && c.seen.thread_id == c.owner->Some_0.0
            &&& c.seen.process_id != 0 && c.seen.process_id == c.owner->Some_0.1
            &&& c.seen.class_name is Some && c.seen.class_name->Some_0@ == c.class_name->Some_0@
        },
        captured(c) matches Ok(target) ==> {
            &&& target.hwnd == c.root->Some_0
            &&& target.thread_id == c.owner->Some_0.0
            &&& target.process_id == c.owner->Some_0.1
            &&& target.class_name == c.class_name->Some_0@
            &&& target.title_at_bind == c.title@
            &&& same_window(target, c.seen)
        },
        c.root is Some && c.owner is Some && c.class_name is Some && c.class_name->Some_0@.len() > 0
            && c.process_error is Some ==> captured(c) == Err::<BoundWindowModel, Seq<char>>(
            c.process_error->Some_0@,
        ),
{
}

/// Every change of the binding, up to the greatest number, gets the next
/// generation, and no generation follows itself.
pub proof fn lemma_generations(generation: u64, snapshot: SnapshotModel, binding: BindingModel)
    ensures
        next_generation(generation) != generation,
        generation < u64::MAX ==> next_generation(generation) == generation + 1,
        is_of(snapshot, binding) <==> snapshot.generation == binding.generation,
{
}

/// A snapshot may be acted on through the bound window alone, and only as long
/// as nothing was bound or unbound since and the window is still itself.
pub proof fn lemma_may_act(
    snapshot: SnapshotModel,
    binding: BindingModel,
    seen: WindowObservation,
    target: BoundWindowModel,
)
    ensures
        may_act(snapshot, binding, seen, target) <==> {
            &&& snapshot.generation == binding.generation
            &&& binding.target is Some && binding.target->Some_0 == target
            &&& same_window(target, seen)
        },
        !seen.is_window || !seen.process_alive ==> !may_act(snapshot, binding, seen, target),
{
}

/// The windows to try are those of the list but zero, each once, and in the order
/// in which they are found first.
pub proof fn lemma_distinct_handles(handles: Seq<isize>)
    ensures
        forall|h: isize|
            #[trigger] distinct_handles(handles).contains(h) <==> handles.contains(h) && h != 0,
        distinct_handles(handles).no_duplicates(),
        forall|k: int|
            0 <= k < handles.len() && handles[k] != 0 && (forall|i: int|
                0 <= i < k ==> handles[i] != handles[k]) ==> distinct_handles(
                #[trigger] handles.take(k + 1),
            ) == distinct_handles(handles.take(k)).push(handles[k]),
    decreases handles.len(),
{
    assert forall|k: int|
        0 <= k < handles.len() && handles[k] != 0 && (forall|i: int|
            0 <= i < k ==> handles[i] != handles[k]) implies distinct_handles(
        #[trigger] handles.take(k + 1),
    ) == distinct_handles(handles.take(k)).push(handles[k]) by {
        lemma_handles_kept(handles.take(k));
        assert(handles.take(k + 1).drop_last() =~= handles.take(k));
        assert(handles.take(k + 1).last() == handles[k]);
        if handles.take(k).contains(handles[k]) {
            let i = choose|i: int| 0 <= i < k && handles.take(k)[i] == handles[k];
            assert(handles[i] == handles[k]);
        }
    }
    lemma_handles_kept(handles);
}

proof fn lemma_handles_kept(handles: Seq<isize>)
    ensures
        forall|h: isize|
            #[trigger] distinct_handles(handles).contains(h) <==> handles.contains(h) && h != 0,
        distinct_handles(handles).no_duplicates(),
    decreases handles.len(),
{
    let r = distinct_handles(handles);
    if handles.len() > 0 {
        let rest = handles.drop_last();
        let inner = distinct_handles(rest);
        lemma_handles_kept(rest);
        assert forall|h: isize| #[trigger] r.contains(h) <==> (handles.contains(h) && h != 0) by {
            if rest.contains(h) {
                let i = choose|i: int| 0 <= i < rest.len() && rest[i] == h;
                assert(handles[i] == h);
            }
            if handles.contains(h) && h != handles.last() {
                let i = choose|i: int| 0 <= i < handles.len() && handles[i] == h;
                assert(rest[i] == h);
            }
            if inner.contains(h) {
                let i = choose|i: int| 0 <= i < inner.len() && inner[i] == h;
                assert(r[i] == h);
            }
            if h == handles.last() {
                assert(handles[handles.len() - 1] == h);
                if r.len() > inner.len() {
                    assert(r[inner.len() as int] == h);
                }
            }
            assert(inner.contains(h) <==> (rest.contains(h) && h != 0));
        }
        assert forall|i: int, j: int| 0 <= i < r.len() && 0 <= j < r.len() && i != j implies r[i]
            != r[j] by {
            if i < inner.len() && j < inner.len() {
                assert(inner[i] != inner[j]);
            } else if i < inner.len() {
                assert(inner.contains(inner[i]));
            } else {
                assert(inner.contains(inner[j]));
            }
        }
    }
}

/// Of several windows the first that could be captured is bound; none exactly if
/// none could.
pub proof fn lemma_first_captured(captures: Seq<WindowCapture>, at: int)
    ensures
        first_captured(captures) is None <==> forall|i: int|
            0 <= i < captures.len() ==> captured(#[trigger] captures[i]) is Err,
        0 <= at < captures.len() && captured(captures[at]) is Ok && (forall|i: int|
            0 <= i < at ==> captured(#[trigger] captures[i]) is Err) ==> first_captured(captures)
            == Some(captured(captures[at])->Ok_0),
    decreases captures.len(),
{
    if captures.len() > 0 {
        let rest = captures.subrange(1, captures.len() as int);
        lemma_first_captured(rest, at - 1);
        if captured(captures[0]) is Err {
            if forall|i: int| 0 <= i < rest.len() ==> captured(#[trigger] rest[i]) is Err {
                assert forall|i: int| 0 <= i < captures.len() implies captured(
                    #[trigger] captures[i],
                ) is Err by {
                    if i > 0 {
                        assert(captured(rest[i - 1]) is Err);
                    }
                }
            }
            if forall|i: int| 0 <= i < captures.len() ==> captured(#[trigger] captures[i]) is Err {
                assert forall|i: int| 0 <= i < rest.len() implies captured(
                    #[trigger] rest[i],
                ) is Err by {
                    assert(captured(captures[i + 1]) is Err);
                }
            }
            if 0 < at < captures.len() && forall|i: int|
                0 <= i < at ==> captured(#[trigger] captures[i]) is Err {
                assert forall|i: int| 0 <= i < at - 1 implies captured(#[trigger] rest[i]) is Err by {
                    assert(captured(captures[i + 1]) is Err);
                }
            }
        }
    }
}

/// What is shown of a binding tells the title of the window, its handle where it
/// has none, and else that no window was found.
pub proof fn lemma_binding_message(title: Seq<char>, hwnd: isize)
    ensures
        title.len() > 0 ==> crate::text::occurs_in(binding_message(Some(title), hwnd), title),
        crate::text::occurs_in(
            binding_message(Some(Seq::empty()), hwnd),
            crate::text::hexadecimal((hwnd as usize) as nat),
        ),
        binding_message(None, hwnd) == "未找到可绑定窗口"@,
{
    let number = crate::text::hexadecimal((hwnd as usize) as nat);
    let none = Seq::<char>::empty();
    crate::text::lemma_occurrence("已绑定: "@, title, none, none);
    crate::text::lemma_occurrence("已绑定窗口 0x"@, number, none, none);
    assert("已绑定: "@ + title + none =~= "已绑定: "@ + title);
    assert("已绑定窗口 0x"@ + number + none =~= "已绑定窗口 0x"@ + number);
}

/// One more window goes behind all that are listed before it or have the same
/// title, and before all others, which stay in order.
pub proof fn lemma_window_finds_its_place(sorted: Seq<WindowInfoModel>, w: WindowInfoModel) -> (k:
    int)
    requires
        in_title_order(sorted),
    ensures
        0 <= k <= sorted.len(),
        with_window(sorted, w) == sorted.insert(k, w),
        forall|i: int| 0 <= i < k ==> !title_before(w, #[trigger] sorted[i]),
        forall|i: int| k <= i < sorted.len() ==> title_before(w, #[trigger] sorted[i]),
    decreases sorted.len(),
{
    if sorted.len() > 0 && title_before(w, sorted.last()) {
        let rest = sorted.drop_last();
        let k = lemma_window_finds_its_place(rest, w);
        assert forall|i: int| k <= i < sorted.len() implies title_before(w, #[trigger] sorted[i]) by {
            if i < rest.len() {
                assert(title_before(w, rest[i]));
            }
        }
        assert forall|i: int| 0 <= i < k implies !title_before(w, #[trigger] sorted[i]) by {
            assert(!title_before(w, rest[i]));
        }
        assert(rest.insert(k, w).push(sorted.last()) =~= sorted.insert(k, w));
        k
    } else {
        let k = sorted.len() as int;
        assert(sorted.push(w) =~= sorted.insert(k, w));
        assert forall|i: int| 0 <= i < k implies !title_before(w, #[trigger] sorted[i]) by {
            if i < k - 1 {
                assert(!title_before(sorted[k - 1], sorted[i]));
                lemma_title_order_transitive(sorted[i], sorted[k - 1], w);
            }
        }
        k
    }
}

/// The list holds as many windows as were found with a title: none twice, none
/// lost.
pub proof fn lemma_sorted_windows_are_those_found(found: Seq<WindowInfoModel>)
    ensures
        sorted_windows(found).to_multiset() == found.filter(
            |w: WindowInfoModel| w.title.len() > 0,
        ).to_multiset(),
    decreases found.len(),
{
    broadcast use vstd::seq_lib::group_to_multiset_ensures;

    let titled = |w: WindowInfoModel| w.title.len() > 0;
    reveal(Seq::filter);
    if found.len() > 0 {
        let rest = found.drop_last();
        lemma_sorted_windows_are_those_found(rest);
        lemma_sorted_windows(rest);
        if titled(found.last()) {
            let before = sorted_windows(rest);
            let k = lemma_window_finds_its_place(before, found.last());
            assert(before.insert(k, found.last()).to_multiset() =~= before.to_multiset().insert(
                found.last(),
            ));
            assert(found.filter(titled) =~= rest.filter(titled).push(found.last()));
        } else {
            assert(found.filter(titled) =~= rest.filter(titled));
        }
    }
}

/// Only windows that follow one of the same handle are left out: what is left
/// comes from the list, in its order.
pub proof fn lemma_repeats_left_out(windows: Seq<WindowInfoModel>, w: WindowInfoModel)
    ensures
        forall|x: WindowInfoModel|
            #[trigger] without_repeats(windows).contains(x) ==> windows.contains(x),
        windows.len() == 0 || windows.last().hwnd != w.hwnd ==> without_repeats(windows.push(w))
            == without_repeats(windows).push(w),
        windows.len() > 0 && windows.last().hwnd == w.hwnd ==> without_repeats(windows.push(w))
            == without_repeats(windows),
        windows.len() > 0 ==> without_repeats(windows).len() > 0 && without_repeats(
            windows,
        ).last().hwnd == windows.last().hwnd,
    decreases windows.len(),
{
    assert(windows.push(w).drop_last() =~= windows);
    let r = without_repeats(windows);
    if windows.len() > 0 {
        let rest = windows.drop_last();
        lemma_repeats_left_out(rest, windows.last());
        assert(rest.push(windows.last()) =~= windows);
        assert forall|x: WindowInfoModel| #[trigger] r.contains(x) implies windows.contains(x) by {
            let i = choose|i: int| 0 <= i < r.len() && r[i] == x;
            let inner = without_repeats(rest);
            if i < inner.len() {
                assert(inner[i] == x);
                assert(inner.contains(x));
                let j = choose|j: int| 0 <= j < rest.len() && rest[j] == x;
                assert(windows[j] == x);
            } else {
                assert(windows[windows.len() - 1] == x);
            }
        }
    }
}

/// A window that is bound is the one that input goes to from then on, and no
/// snapshot of before is of the binding any more.  Where binding fails nothing
/// changes.
pub proof fn lemma_binding(
    binding: &mut WindowBinding,
    capture: WindowCapture,
    r: Result<BindingSnapshot, String>,
)
    requires
        call_ensures(WindowBinding::bind_candidate, (binding, capture), r),
    ensures
        r is Ok <==> captured(capture) is Ok,
        r is Err ==> final(binding)@ == old(binding)@,
        r matches Ok(snapshot) ==> {
            &&& final(binding)@.target == Some(snapshot@.target)
            &&& captured(capture) == Ok::<_, Seq<char>>(snapshot@.target)
            &&& snapshot@.generation == final(binding)@.generation
            &&& final(binding)@.generation != old(binding)@.generation
        },
{
}

/// Clearing a binding leaves no window bound, and no snapshot of before is of it
/// any more; clearing it for a snapshot does so just for a snapshot of it.
pub proof fn lemma_clearing(
    cleared: &mut WindowBinding,
    binding: &mut WindowBinding,
    snapshot: &BindingSnapshot,
    r: bool,
)
    requires
        call_ensures(WindowBinding::clear, (cleared,), ()),
        call_ensures(WindowBinding::clear_if_current, (binding, snapshot), r),
    ensures
        final(cleared)@.target is None && final(cleared)@.generation != old(cleared)@.generation,
        r <==> snapshot@.generation == old(binding)@.generation,
        r ==> final(binding)@.target is None && final(binding)@.generation
            != old(binding)@.generation,
        !r ==> final(binding)@ == old(binding)@,
{
}

/// A snapshot of a binding is of it, and current as long as its window is the same;
/// there is one just while a window is bound.
pub proof fn lemma_snapshot_is_current(
    binding: &WindowBinding,
    snapshot: Option<BindingSnapshot>,
    seen: &WindowObservation,
    r: bool,
)
    requires
        call_ensures(WindowBinding::snapshot, (binding,), snapshot),
        snapshot matches Some(of) ==> call_ensures(
            WindowBinding::is_current,
            (binding, &of, seen),
            r,
        ),
    ensures
        snapshot is Some <==> binding@.target is Some,
        snapshot matches Some(of) ==> {
            &&& binding@.target == Some(of@.target)
            &&& r == same_window(of@.target, *seen)
        },
{
}

/// Something is done with the bound window just if the snapshot is of the binding,
/// a window is bound, and it is still the same; what is done decides the result.
pub proof fn lemma_acting<T, F: FnOnce(&BoundWindow) -> Result<T, String>>(
    binding: &WindowBinding,
    snapshot: &BindingSnapshot,
    seen: &WindowObservation,
    action: F,
    r: Result<T, String>,
)
    requires
        call_ensures(
            WindowBinding::with_current_target::<T, F>,
            (binding, snapshot, seen, action),
            r,
        ),
    ensures
        ({
            let fit = snapshot@.generation == binding@.generation && binding@.target is Some
                && same_window(binding@.target->Some_0, *seen);
            &&& r is Ok ==> fit
            &&& fit ==> exists|target: &BoundWindow|
                target@ == binding@.target->Some_0 && #[trigger] call_ensures(action, (target,), r)
        }),
{
}

/// Of several windows the first that can be bound is bound; if none can, none is
/// bound any more.
pub proof fn lemma_binding_first(
    binding: &mut WindowBinding,
    captures: Vec<WindowCapture>,
    r: Option<BindingSnapshot>,
    i: int,
)
    requires
        call_ensures(bind_first_valid_window, (binding, captures), r),
        0 <= i < captures@.len(),
        forall|k: int| 0 <= k < i ==> captured(#[trigger] captures@[k]) is Err,
    ensures
        final(binding)@.generation != old(binding)@.generation,
        r is Some <==> final(binding)@.target is Some,
        captured(captures@[i]) matches Ok(target) ==> r is Some && r->Some_0@.target == target
            && final(binding)@.target == Some(target) && r->Some_0@.generation
            == final(binding)@.generation,
        i == captures@.len() - 1 && captured(captures@[i]) is Err ==> r is None,
{
    lemma_first_captured(captures@, i);
}

/// The window is called by its title, and by the one it had when it was bound
/// where it has none.
pub proof fn lemma_title(window: &BoundWindow, current: String, r: String)
    requires
        call_ensures(BoundWindow::title, (window, current), r),
    ensures
        current@.len() > 0 ==> r@ == current@,
        current@.len() == 0 ==> r@ == window@.title_at_bind,
{
}

/// The program's own window is one of its own process whose title begins with the
/// name of the program.
pub proof fn lemma_own_main_window(process: u32, own: u32, title: &str, rest: Seq<char>, r: bool)
    requires
        call_ensures(is_own_main_window, (process, own, title), r),
    ensures
        process != own ==> !r,
        process == own && title@ == "调度器"@ + rest ==> r,
        r ==> title@.len() >= 3 && title@.take(3) == "调度器"@,
{
    let none = Seq::<char>::empty();
    reveal_strlit("调度器");
    crate::text::lemma_occurrence(none, "调度器"@, rest, none);
    assert(none + "调度器"@ + rest =~= "调度器"@ + rest);
    if r {
        assert(crate::text::begins_with(title@, "调度器"@));
        assert(title@.take(3) =~= "调度器"@);
    }
}

} // verus!
