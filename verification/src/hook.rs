//! The keyboard and mouse state machines behind the global shortcuts.
//!
//! Left Alt pressed and released on its own toggles running, Ctrl+Alt+Space
//! binds the window under the cursor, Ctrl+Z asks for the next profile, and a
//! right-button drag binds the window where it ends.  The state machine takes
//! one physical key event at a time and says what to do; sending input, reading
//! the foreground window and delivering commands are left to the caller.
use crate::hotkey::{is_modifier, normalize_vk, VK_ALT, VK_CONTROL};
use std::collections::BTreeSet;
use vstd::prelude::*;

verus! {

broadcast use {
    vstd::laws_cmp::group_laws_cmp,
    vstd::std_specs::btree::group_btree_axioms,
    vstd::set::group_set_axioms,
};

pub const WM_KEYDOWN: u32 = 0x100;

pub const WM_KEYUP: u32 = 0x101;

pub const WM_SYSKEYDOWN: u32 = 0x104;

pub const WM_SYSKEYUP: u32 = 0x105;

/// Bit of [`KeyEvent::flags`] that marks an extended key.
pub const LLKHF_EXTENDED: u32 = 0x01;

/// Bit of [`KeyEvent::flags`] that marks an event made by a program.
pub const LLKHF_INJECTED: u32 = 0x10;

/// The physical code of the left Alt key.
pub const VK_LEFT_ALT: u16 = 0xA4;

/// The scan code of the Alt keys.
pub const ALT_SCAN_CODE: u32 = 0x38;

pub const VK_ESCAPE: u16 = 0x1B;

pub const VK_SPACE: u16 = 0x20;

/// The code of the letter Z.
pub const VK_Z: u16 = 0x5A;

/// One event of the low-level keyboard hook.
#[derive(Debug, Clone, Copy, PartialEq, Eq, Structural)]
pub struct KeyEvent {
    pub vk_code: u32,
    pub scan_code: u32,
    pub flags: u32,
    /// The window message that carries the event.
    pub message: u32,
}

/// A shortcut that was recognised.
#[derive(Debug, Clone, Copy, PartialEq, Eq, Structural)]
pub enum Shortcut {
    /// Ctrl+Alt+Space.
    BindWindow,
    /// Ctrl+Z.
    NextConfig,
}

/// What one key event asks for.
#[derive(Debug, Clone, Copy, PartialEq, Eq, Structural)]
pub struct KeyOutcome {
    /// The event is to be kept from other programs.
    pub suppress: bool,
    /// The release of an Alt press that was sent on is to be sent as well; the
    /// event itself is then kept back if that succeeds.
    pub release_alt: Option<u16>,
    /// The key that was captured; zero clears the slot.
    pub captured: Option<u16>,
    /// Running is to be toggled.
    pub toggle: bool,
    pub shortcut: Option<Shortcut>,
}

/// The keyboard state: which keys are down, which are kept back, and where the
/// left Alt gesture stands.
pub struct HookState {
    pressed: BTreeSet<u16>,
    suppressed: BTreeSet<u16>,
    hotkey_fired: bool,
    left_alt_down: bool,
    left_alt_solo: bool,
    alt_synthetic_down: bool,
    capturing: bool,
}

/// The mathematical content of a [`HookState`].
#[verifier::ext_equal]
pub struct HookModel {
    pub pressed: Set<u16>,
    pub suppressed: Set<u16>,
    pub hotkey_fired: bool,
    pub left_alt_down: bool,
    pub left_alt_solo: bool,
    pub alt_synthetic_down: bool,
    pub capturing: bool,
}

impl View for HookState {
    type V = HookModel;

    closed spec fn view(&self) -> HookModel {
        HookModel {
            pressed: self.pressed@,
            suppressed: self.suppressed@,
            hotkey_fired: self.hotkey_fired,
            left_alt_down: self.left_alt_down,
            left_alt_solo: self.left_alt_solo,
            alt_synthetic_down: self.alt_synthetic_down,
            capturing: self.capturing,
        }
    }
}

// ---------------------------------------------------------------------------
// Single events
// ---------------------------------------------------------------------------
pub open spec fn is_down(e: KeyEvent) -> bool {
    e.message == WM_KEYDOWN || e.message == WM_SYSKEYDOWN
}

pub open spec fn is_up(e: KeyEvent) -> bool {
    e.message == WM_KEYUP || e.message == WM_SYSKEYUP
}

/// The code of the physical key: the generic codes of Shift, Ctrl and Alt are
/// resolved to a side by scan code or by the extended flag.
pub open spec fn physical(e: KeyEvent) -> u16 {
    let raw = e.vk_code as u16;
    if raw == 0x10 {
        if e.scan_code == 0x36 {
            0xA1u16
        } else {
            0xA0u16
        }
    } else if raw == 0x11 {
        if e.flags & LLKHF_EXTENDED != 0 {
            0xA3u16
        } else {
            0xA2u16
        }
    } else if raw == 0x12 {
        if e.flags & LLKHF_EXTENDED != 0 {
            0xA5u16
        } else {
            0xA4u16
        }
    } else {
        raw
    }
}

/// The code of the physical key of an event.
pub fn physical_vk(event: &KeyEvent) -> (r: u16)
    ensures
        r == physical(*event),
{
    let raw: u16 = #[verifier::truncate]
    (event.vk_code as u16);
    match raw {
        0x10 => {
            if event.scan_code == 0x36 {
                0xA1
            } else {
                0xA0
            }
        },
        0x11 => {
            if event.flags & LLKHF_EXTENDED != 0 {
                0xA3
            } else {
                0xA2
            }
        },
        0x12 => {
            if event.flags & LLKHF_EXTENDED != 0 {
                0xA5
            } else {
                0xA4
            }
        },
        _ => raw,
    }
}

/// Whether an event belongs to the left Alt key: its own code, or the generic
/// Alt code with the scan code of Alt and without the extended flag.
pub open spec fn left_alt(e: KeyEvent) -> bool {
    let raw = e.vk_code as u16;
    raw == VK_LEFT_ALT || (raw == VK_ALT && e.flags & LLKHF_EXTENDED == 0 && e.scan_code
        == ALT_SCAN_CODE)
}

/// Whether an event belongs to the left Alt key.
pub fn is_physical_left_alt(event: &KeyEvent) -> (r: bool)
    ensures
        r == left_alt(*event),
{
    let vk: u16 = #[verifier::truncate]
    (event.vk_code as u16);
    if vk == VK_LEFT_ALT {
        return true;
    }
    if vk == VK_ALT {
        return event.flags & LLKHF_EXTENDED == 0 && event.scan_code == ALT_SCAN_CODE;
    }
    false
}

/// The side-independent codes of a set of keys.
pub open spec fn normalized_set(keys: Set<u16>) -> Set<u16> {
    keys.map(|k: u16| crate::hotkey::normalized(k))
}

/// The side-independent codes of the keys that are down.
pub fn normalized_pressed_keys(keys: &BTreeSet<u16>) -> (out: BTreeSet<u16>)
    ensures
        out@ == normalized_set(keys@),
        out@.finite(),
{
    let mut out: BTreeSet<u16> = BTreeSet::new();
    let ghost f = |k: u16| crate::hotkey::normalized(k);
    let ghost order: Seq<u16> = vstd::std_specs::iter::IteratorSpec::remaining(
        &vstd::std_specs::btree::spec_btree_keys_iter(keys),
    ).unref();
    assert(order.to_set() == keys@);
    for k in it: keys.iter()
        invariant
            it.seq().unref() == order,
            order.len() == it.seq().len(),
            out@.finite(),
            f == |k: u16| crate::hotkey::normalized(k),
            forall|v: u16| out@.contains(v) <==> exists|j: int|
                0 <= j < it.index() && f(#[trigger] order[j]) == v,
    {
        let ghost before = out@;
        assert(order[it.index() as int] == *k);
        out.insert(normalize_vk(*k));
        assert forall|v: u16| out@.contains(v) <==> exists|j: int|
            0 <= j < it.index() + 1 && f(#[trigger] order[j]) == v by {
            if v == f(*k) {
                assert(f(order[it.index() as int]) == v);
            }
            if before.contains(v) {
                let j = choose|j: int| 0 <= j < it.index() && f(#[trigger] order[j]) == v;
                assert(f(order[j]) == v);
            }
        }
    }
    assert forall|v: u16| out@.contains(v) <==> normalized_set(keys@).contains(v) by {
        if out@.contains(v) {
            let j = choose|j: int| 0 <= j < order.len() && f(#[trigger] order[j]) == v;
            assert(order.to_set().contains(order[j]));
        }
        if normalized_set(keys@).contains(v) {
            let k = choose|k: u16| keys@.contains(k) && f(k) == v;
            assert(order.to_set().contains(k));
            let j = choose|j: int| 0 <= j < order.len() && order[j] == k;
            assert(f(order[j]) == v);
        }
    }
    assert(out@ =~= normalized_set(keys@));
    out
}

// ---------------------------------------------------------------------------
// The key state machine
// ---------------------------------------------------------------------------
/// The shortcut that a set of pressed keys makes up: exactly its keys, on
/// either side of the keyboard, and no other.
pub open spec fn shortcut_of(pressed: Set<u16>) -> Option<Shortcut> {
    if normalized_set(pressed) == set![VK_CONTROL, VK_ALT, VK_SPACE] {
        Some(Shortcut::BindWindow)
    } else if normalized_set(pressed) == set![VK_CONTROL, VK_Z] {
        Some(Shortcut::NextConfig)
    } else {
        None
    }
}

proof fn lemma_exact_pair(s: Set<u16>, a: u16, b: u16)
    requires
        s.finite(),
        a != b,
    ensures
        (s == set![a, b]) <==> (s.len() == 2 && s.contains(a) && s.contains(b)),
{
    if s.len() == 2 && s.contains(a) && s.contains(b) {
        let rest = s.remove(a).remove(b);
        assert(rest.len() == 0);
        assert forall|k: u16| s.contains(k) implies k == a || k == b by {
            if k != a && k != b {
                assert(rest.contains(k));
            }
        }
        assert(s =~= set![a, b]);
    }
}

proof fn lemma_exact_triple(s: Set<u16>, a: u16, b: u16, c: u16)
    requires
        s.finite(),
        a != b,
        b != c,
        a != c,
    ensures
        (s == set![a, b, c]) <==> (s.len() == 3 && s.contains(a) && s.contains(b) && s.contains(c)),
{
    if s.len() == 3 && s.contains(a) && s.contains(b) && s.contains(c) {
        let rest = s.remove(a).remove(b).remove(c);
        assert(rest.len() == 0);
        assert forall|k: u16| s.contains(k) implies k == a || k == b || k == c by {
            if k != a && k != b && k != c {
                assert(rest.contains(k));
            }
        }
        assert(s =~= set![a, b, c]);
    }
}

/// Recognises a shortcut in the keys that are down.
pub fn registered_shortcut(pressed: &BTreeSet<u16>) -> (r: Option<Shortcut>)
    ensures
        r == shortcut_of(pressed@),
{
    let keys = normalized_pressed_keys(pressed);
    proof {
        lemma_exact_triple(keys@, VK_CONTROL, VK_ALT, VK_SPACE);
        lemma_exact_pair(keys@, VK_CONTROL, VK_Z);
    }
    if keys.len() == 3 && keys.contains(&VK_CONTROL) && keys.contains(&VK_ALT) && keys.contains(
        &VK_SPACE,
    ) {
        return Some(Shortcut::BindWindow);
    }
    if keys.len() == 2 && keys.contains(&VK_CONTROL) && keys.contains(&VK_Z) {
        return Some(Shortcut::NextConfig);
    }
    None
}

/// Nothing to do, and the event passes on.
pub open spec fn no_outcome() -> KeyOutcome {
    KeyOutcome {
        suppress: false,
        release_alt: None,
        captured: None,
        toggle: false,
        shortcut: None,
    }
}

/// The Alt press that is being kept back, if there is one.
pub open spec fn held_back_alt(suppressed: Set<u16>) -> Option<u16> {
    if suppressed.contains(VK_LEFT_ALT) {
        Some(VK_LEFT_ALT)
    } else if suppressed.contains(VK_ALT) {
        Some(VK_ALT)
    } else {
        None
    }
}

/// The Alt press that a key press sends on: the one that is kept back, when
/// another key is newly pressed while left Alt is down and the program's own
/// window does not have the focus.
pub open spec fn replayed_alt(m: HookModel, raw: u16, left: bool, own_window: bool) -> Option<u16> {
    if !left && !m.pressed.contains(raw) && m.left_alt_down && !own_window {
        held_back_alt(m.suppressed)
    } else {
        None
    }
}

/// The Alt press that is to be sent before an event is taken in.
pub open spec fn due_replay(m: HookModel, e: KeyEvent, own_window: bool) -> Option<u16> {
    if is_down(e) {
        replayed_alt(m, physical(e), left_alt(e), own_window)
    } else {
        None
    }
}

/// The part of a key press that concerns the left Alt gesture, with `left`
/// telling whether the key is left Alt and `sent` whether the Alt press to send
/// on was sent.
///
/// Left Alt starts a solo gesture if no other key is down, and is kept back
/// unless the program's own window has the focus.  Another key pressed while
/// left Alt is down ends the gesture; an Alt press that was sent on is no longer
/// kept back.
pub open spec fn alt_gesture(
    m: HookModel,
    raw: u16,
    left: bool,
    own_window: bool,
    sent: bool,
) -> HookModel {
    let pressed = m.pressed.insert(raw);
    if left {
        if m.left_alt_down {
            HookModel { pressed, ..m }
        } else {
            let solo = forall|k: u16| m.pressed.contains(k) ==> k == raw;
            HookModel {
                pressed,
                suppressed: if solo && !own_window {
                    m.suppressed.insert(raw)
                } else {
                    m.suppressed
                },
                left_alt_down: true,
                left_alt_solo: solo,
                ..m
            }
        }
    } else if !m.pressed.contains(raw) && m.left_alt_down {
        let ended = HookModel { pressed, left_alt_solo: false, ..m };
        match replayed_alt(m, raw, left, own_window) {
            Some(alt) => if sent {
                HookModel {
                    suppressed: m.suppressed.remove(alt),
                    alt_synthetic_down: true,
                    ..ended
                }
            } else {
                ended
            },
            None => ended,
        }
    } else {
        HookModel { pressed, ..m }
    }
}

/// What a key press does.
pub open spec fn press(m: HookModel, raw: u16, left: bool, own_window: bool, sent: bool) -> (
    HookModel,
    KeyOutcome,
) {
    let fresh = !m.pressed.contains(raw);
    let g = alt_gesture(m, raw, left, own_window, sent);
    let vk = crate::hotkey::normalized(raw);
    if fresh && m.capturing {
        let captured = if raw == VK_ESCAPE {
            Some(0u16)
        } else if !crate::hotkey::modifier(vk) {
            Some(vk)
        } else {
            None
        };
        (
            HookModel {
                suppressed: g.suppressed.insert(raw),
                left_alt_solo: false,
                capturing: captured is None,
                ..g
            },
            KeyOutcome { suppress: true, captured, ..no_outcome() },
        )
    } else if fresh && !m.hotkey_fired && shortcut_of(g.pressed) is Some {
        (
            HookModel {
                suppressed: g.suppressed.insert(raw),
                hotkey_fired: true,
                left_alt_solo: false,
                ..g
            },
            KeyOutcome { suppress: true, shortcut: shortcut_of(g.pressed), ..no_outcome() },
        )
    } else {
        (g, KeyOutcome { suppress: g.suppressed.contains(raw), ..no_outcome() })
    }
}

/// What a key release does, with `left` telling whether the key is left Alt: the
/// key is no longer down nor kept back, a release of a key that was kept back is
/// kept back too, and the release of left Alt ends its gesture.
pub open spec fn release(m: HookModel, raw: u16, left: bool) -> (HookModel, KeyOutcome) {
    let pressed = m.pressed.remove(raw);
    let was_suppressed = m.suppressed.contains(raw);
    (
        HookModel {
            pressed,
            suppressed: m.suppressed.remove(raw),
            hotkey_fired: m.hotkey_fired && crate::hotkey::modifier(raw) && !pressed.is_empty(),
            left_alt_down: m.left_alt_down && !left,
            left_alt_solo: m.left_alt_solo && !left,
            alt_synthetic_down: m.alt_synthetic_down && !left,
            ..m
        },
        KeyOutcome {
            suppress: was_suppressed,
            release_alt: if left && m.alt_synthetic_down {
                Some(raw)
            } else {
                None
            },
            toggle: left && m.left_alt_solo,
            ..no_outcome()
        },
    )
}

/// What one key event does, with `own_window` telling whether the program's own
/// window has the focus, and `sent` whether the Alt press that was due before it
/// was sent.
pub open spec fn key_step(m: HookModel, e: KeyEvent, own_window: bool, sent: bool) -> (
    HookModel,
    KeyOutcome,
) {
    let raw = physical(e);
    if is_down(e) {
        press(m, raw, left_alt(e), own_window, sent)
    } else if is_up(e) {
        release(m, raw, left_alt(e))
    } else {
        (m, KeyOutcome { suppress: m.suppressed.contains(raw), ..no_outcome() })
    }
}

/// The state after capturing was switched on or off, which forgets what is down.
pub open spec fn with_capture(m: HookModel, capturing: bool) -> HookModel {
    HookModel { pressed: Set::empty(), capturing, ..m }
}

/// Whether a low-level hook call carries an event to look at: a valid call that
/// was not made by a program.
pub fn accepts_event(code: i32, has_event: bool, flags: u32) -> (r: bool)
    ensures
        r == (code >= 0 && has_event && flags & LLKHF_INJECTED == 0),
{
    code >= 0 && has_event && flags & LLKHF_INJECTED == 0
}

proof fn lemma_alone(s: Set<u16>, a: u16)
    ensures
        s.remove(a).is_empty() <==> forall|k: u16| s.contains(k) ==> k == a,
        s.remove(a).insert(a) == s.insert(a),
{
    assert(s.remove(a).insert(a) =~= s.insert(a));
    if forall|k: u16| s.contains(k) ==> k == a {
        assert(s.remove(a) =~= Set::empty());
    } else {
        let k = choose|k: u16| s.contains(k) && k != a;
        assert(s.remove(a).contains(k));
    }
}

impl HookState {
    /// No key is down and nothing is being captured.
    pub fn new() -> (r: HookState)
        ensures
            r@ == idle_hook(),
    {
        HookState {
            pressed: BTreeSet::new(),
            suppressed: BTreeSet::new(),
            hotkey_fired: false,
            left_alt_down: false,
            left_alt_solo: false,
            alt_synthetic_down: false,
            capturing: false,
        }
    }

    /// The next key that is pressed will be captured.
    pub fn begin_key_capture(&mut self)
        ensures
            final(self)@ == with_capture(old(self)@, true),
    {
        self.pressed.clear();
        self.capturing = true;
    }

    /// No key will be captured.
    pub fn cancel_capture(&mut self)
        ensures
            final(self)@ == with_capture(old(self)@, false),
    {
        self.capturing = false;
        self.pressed.clear();
    }

    fn suppressed_left_alt_key(&self) -> (r: Option<u16>)
        ensures
            r == held_back_alt(self@.suppressed),
    {
        if self.suppressed.contains(&VK_LEFT_ALT) {
            Some(VK_LEFT_ALT)
        } else if self.suppressed.contains(&VK_ALT) {
            Some(VK_ALT)
        } else {
            None
        }
    }

    fn replay_for(&self, raw_vk: u16, left: bool, own_window: bool) -> (r: Option<u16>)
        ensures
            r == replayed_alt(self@, raw_vk, left, own_window),
    {
        if !left && !self.pressed.contains(&raw_vk) && self.left_alt_down && !own_window {
            self.suppressed_left_alt_key()
        } else {
            None
        }
    }

    /// The Alt press that was kept back and is to be sent now, before the event
    /// is taken in.
    pub fn replay_due(&self, event: &KeyEvent, own_window: bool) -> (r: Option<u16>)
        ensures
            r == due_replay(self@, *event, own_window),
    {
        if event.message == WM_KEYDOWN || event.message == WM_SYSKEYDOWN {
            self.replay_for(physical_vk(event), is_physical_left_alt(event), own_window)
        } else {
            None
        }
    }

    fn track_alt_gesture(&mut self, raw_vk: u16, left: bool, own_window: bool, sent: bool)
        ensures
            final(self)@ == alt_gesture(old(self)@, raw_vk, left, own_window, sent),
    {
        let replay = self.replay_for(raw_vk, left, own_window);
        let inserted = !self.pressed.remove(&raw_vk);
        let alone = self.pressed.is_empty();
        proof {
            lemma_alone(old(self)@.pressed, raw_vk);
        }
        self.pressed.insert(raw_vk);
        if left {
            if !self.left_alt_down {
                self.left_alt_down = true;
                self.left_alt_solo = alone;
                if alone && !own_window {
                    self.suppressed.insert(raw_vk);
                }
            }
        } else if inserted && self.left_alt_down {
            self.left_alt_solo = false;
            if let Some(alt_vk) = replay {
                if sent {
                    self.suppressed.remove(&alt_vk);
                    self.alt_synthetic_down = true;
                }
            }
        }
    }

    fn key_pressed(&mut self, raw_vk: u16, left: bool, own_window: bool, sent: bool) -> (r:
        KeyOutcome)
        ensures
            (final(self)@, r) == press(old(self)@, raw_vk, left, own_window, sent),
    {
        let inserted = !self.pressed.contains(&raw_vk);
        self.track_alt_gesture(raw_vk, left, own_window, sent);
        let mut outcome = KeyOutcome {
            suppress: false,
            release_alt: None,
            captured: None,
            toggle: false,
            shortcut: None,
        };
        if inserted && self.capturing {
            self.suppressed.insert(raw_vk);
            self.left_alt_solo = false;
            let vk = normalize_vk(raw_vk);
            if raw_vk == VK_ESCAPE {
                self.capturing = false;
                outcome.captured = Some(0);
            } else if !is_modifier(vk) {
                self.capturing = false;
                outcome.captured = Some(vk);
            }
            outcome.suppress = true;
            return outcome;
        }
        if inserted && !self.hotkey_fired {
            outcome.shortcut = registered_shortcut(&self.pressed);
            if outcome.shortcut.is_some() {
                self.hotkey_fired = true;
                self.left_alt_solo = false;
                self.suppressed.insert(raw_vk);
            }
        }
        outcome.suppress = self.suppressed.contains(&raw_vk);
        outcome
    }

    fn key_released(&mut self, raw_vk: u16, left: bool) -> (r: KeyOutcome)
        ensures
            (final(self)@, r) == release(old(self)@, raw_vk, left),
    {
        let was_suppressed = self.suppressed.remove(&raw_vk);
        self.pressed.remove(&raw_vk);
        if !is_modifier(raw_vk) || self.pressed.is_empty() {
            self.hotkey_fired = false;
        }
        let mut outcome = KeyOutcome {
            suppress: was_suppressed,
            release_alt: None,
            captured: None,
            toggle: false,
            shortcut: None,
        };
        if left {
            self.left_alt_down = false;
            outcome.toggle = self.left_alt_solo;
            self.left_alt_solo = false;
            if self.alt_synthetic_down {
                self.alt_synthetic_down = false;
                outcome.release_alt = Some(raw_vk);
            }
        }
        outcome
    }

    /// Takes in one physical key event; `replay_sent` tells whether the Alt press
    /// of [`HookState::replay_due`] was sent.
    pub fn handle_keyboard_event(
        &mut self,
        event: &KeyEvent,
        own_window: bool,
        replay_sent: bool,
    ) -> (r: KeyOutcome)
        ensures
            (final(self)@, r) == key_step(old(self)@, *event, own_window, replay_sent),
    {
        let raw_vk = physical_vk(event);
        let left = is_physical_left_alt(event);
        if event.message == WM_KEYDOWN || event.message == WM_SYSKEYDOWN {
            self.key_pressed(raw_vk, left, own_window, replay_sent)
        } else if event.message == WM_KEYUP || event.message == WM_SYSKEYUP {
            self.key_released(raw_vk, left)
        } else {
            KeyOutcome {
                suppress: self.suppressed.contains(&raw_vk),
                release_alt: None,
                captured: None,
                toggle: false,
                shortcut: None,
            }
        }
    }
}

/// The state with no key down.
pub open spec fn idle_hook() -> HookModel {
    HookModel {
        pressed: Set::empty(),
        suppressed: Set::empty(),
        hotkey_fired: false,
        left_alt_down: false,
        left_alt_solo: false,
        alt_synthetic_down: false,
        capturing: false,
    }
}

/// Whether an event is kept from other programs, once it is known whether the
/// release of [`KeyOutcome::release_alt`] was sent.
pub fn is_swallowed(outcome: &KeyOutcome, release_sent: bool) -> (r: bool)
    ensures
        r == (outcome.suppress || (outcome.release_alt is Some && release_sent)),
{
    outcome.suppress || (outcome.release_alt.is_some() && release_sent)
}

// ---------------------------------------------------------------------------
// Laws of the key state machine
// ---------------------------------------------------------------------------
/// What holds in every state that can be reached: a solo gesture means that
/// left Alt is down and no other key is, and the generic Alt code, which no
/// physical key has, is never kept back.
pub open spec fn consistent(m: HookModel) -> bool {
    &&& m.left_alt_solo ==> m.left_alt_down
    &&& m.left_alt_solo ==> forall|k: u16| m.pressed.contains(k) ==> k == VK_LEFT_ALT
    &&& !m.suppressed.contains(VK_ALT)
}

/// Every operation keeps the state consistent.
pub proof fn lemma_hook_stays_consistent(m: HookModel, e: KeyEvent, own_window: bool, sent: bool)
    ensures
        consistent(idle_hook()),
        consistent(m) ==> consistent(key_step(m, e, own_window, sent).0),
        consistent(m) ==> forall|capturing: bool|
            consistent(#[trigger] with_capture(m, capturing)),
{
}

/// An event of the left Alt key has its physical code.  The generic Alt code with
/// the extended flag, or with another scan code, is not that of left Alt.
pub proof fn lemma_left_alt(e: KeyEvent)
    ensures
        left_alt(e) ==> physical(e) == VK_LEFT_ALT,
        e.vk_code == VK_ALT && (e.flags & LLKHF_EXTENDED != 0 || e.scan_code != ALT_SCAN_CODE)
            ==> !left_alt(e),
{
}

/// Running is toggled only when left Alt is released and no key is down then.
pub proof fn lemma_toggle_needs_solo_alt(m: HookModel, e: KeyEvent, own_window: bool, sent: bool)
    requires
        consistent(m),
        key_step(m, e, own_window, sent).1.toggle,
    ensures
        is_up(e),
        left_alt(e),
        m.left_alt_solo,
        key_step(m, e, own_window, sent).0.pressed == Set::<u16>::empty(),
        !key_step(m, e, own_window, sent).0.left_alt_solo,
{
    assert(key_step(m, e, own_window, sent).0.pressed =~= Set::<u16>::empty());
}

/// Left Alt pressed and released with no other key down toggles running, once;
/// the release is kept back exactly if the press was, and no trace is left.
pub proof fn lemma_solo_alt_toggles(
    m: HookModel,
    down: KeyEvent,
    up: KeyEvent,
    own_down: bool,
    own_up: bool,
    sent: bool,
)
    requires
        m.pressed == Set::<u16>::empty(),
        !m.left_alt_down,
        !m.capturing,
        is_down(down),
        is_up(up),
        left_alt(down),
        left_alt(up),
    ensures
        due_replay(m, down, own_down) is None,
        ({
            let (held, first) = key_step(m, down, own_down, sent);
            let (after, second) = key_step(held, up, own_up, sent);
            &&& !first.toggle
            &&& second.toggle
            &&& second.suppress == first.suppress
            &&& !own_down ==> first.suppress
            &&& own_down ==> first.suppress == m.suppressed.contains(VK_LEFT_ALT)
            &&& after.pressed == Set::<u16>::empty()
            &&& !after.left_alt_down
            &&& !after.left_alt_solo
            &&& after.suppressed == m.suppressed.remove(VK_LEFT_ALT)
        }),
{
    let (held, first) = key_step(m, down, own_down, sent);
    let (after, second) = key_step(held, up, own_up, sent);
    assert(normalized_set(held.pressed).contains(VK_CONTROL) ==> false) by {
        assert forall|k: u16| held.pressed.contains(k) implies k == VK_LEFT_ALT by {}
    }
    assert(set![VK_CONTROL, VK_ALT, VK_SPACE].contains(VK_CONTROL));
    assert(set![VK_CONTROL, VK_Z].contains(VK_CONTROL));
    assert(after.pressed =~= Set::<u16>::empty());
    assert(after.suppressed =~= m.suppressed.remove(VK_LEFT_ALT));
}

/// A key other than left Alt that is newly pressed while left Alt is down ends
/// the solo gesture, and nothing but a new press of left Alt with no other key
/// down starts one.
pub proof fn lemma_other_key_cancels_solo(m: HookModel, e: KeyEvent, own_window: bool, sent: bool)
    ensures
        is_down(e) && !left_alt(e) && m.left_alt_down && !m.pressed.contains(physical(e))
            ==> !key_step(m, e, own_window, sent).0.left_alt_solo,
        key_step(m, e, own_window, sent).0.left_alt_solo ==> m.left_alt_solo || (is_down(e)
            && left_alt(e) && !m.left_alt_down && forall|k: u16|
            m.pressed.contains(k) ==> k == VK_LEFT_ALT),
{
}

/// A released key is neither down nor kept back any more, and other keys stay
/// as they were.
pub proof fn lemma_release_clears_key(m: HookModel, e: KeyEvent, own_window: bool, sent: bool)
    requires
        is_up(e),
    ensures
        ({
            let after = key_step(m, e, own_window, sent).0;
            &&& !after.pressed.contains(physical(e))
            &&& !after.suppressed.contains(physical(e))
            &&& forall|k: u16|
                k != physical(e) ==> (after.pressed.contains(k) == m.pressed.contains(k)
                    && after.suppressed.contains(k) == m.suppressed.contains(k))
        }),
{
}

/// A release is kept back exactly if the press just before it was.
pub proof fn lemma_press_and_release_agree(
    m: HookModel,
    down: KeyEvent,
    up: KeyEvent,
    own_down: bool,
    own_up: bool,
    sent: bool,
)
    requires
        is_down(down),
        is_up(up),
        physical(down) == physical(up),
    ensures
        ({
            let (held, first) = key_step(m, down, own_down, sent);
            let (after, second) = key_step(held, up, own_up, sent);
            second.suppress == first.suppress
        }),
{
}

/// A shortcut fires on a fresh press that completes its keys, is kept back, and
/// does not fire again before a key that is no modifier, or the last key, is
/// released.
pub proof fn lemma_shortcut_fires_once(m: HookModel, e: KeyEvent, own_window: bool, sent: bool)
    ensures
        key_step(m, e, own_window, sent).1.shortcut is Some ==> {
            let (after, outcome) = key_step(m, e, own_window, sent);
            &&& is_down(e)
            &&& !m.pressed.contains(physical(e))
            &&& !m.hotkey_fired
            &&& after.hotkey_fired
            &&& outcome.suppress
            &&& outcome.shortcut == shortcut_of(after.pressed)
        },
        m.hotkey_fired ==> key_step(m, e, own_window, sent).1.shortcut is None,
        m.hotkey_fired && !key_step(m, e, own_window, sent).0.hotkey_fired ==> is_up(e) && (
        !crate::hotkey::modifier(physical(e)) || key_step(m, e, own_window, sent).0.pressed.is_empty()),
{
}

/// While a key is being captured, a fresh press is kept back and triggers
/// nothing else; Escape clears the slot, any other key that is no modifier is
/// captured, and the capture is over then.
pub proof fn lemma_capture_takes_next_key(m: HookModel, e: KeyEvent, own_window: bool, sent: bool)
    requires
        m.capturing,
        is_down(e),
        !m.pressed.contains(physical(e)),
    ensures
        ({
            let (after, outcome) = key_step(m, e, own_window, sent);
            let vk = crate::hotkey::normalized(physical(e));
            &&& outcome.suppress
            &&& !outcome.toggle
            &&& outcome.shortcut is None
            &&& !after.left_alt_solo
            &&& outcome.captured == (if physical(e) == VK_ESCAPE {
                Some(0u16)
            } else if crate::hotkey::modifier(vk) {
                None
            } else {
                Some(vk)
            })
            &&& after.capturing == (outcome.captured is None)
        }),
{
}

/// A held-back Alt press is sent on at most once: after it was sent, no other
/// key press makes it due again until left Alt itself is pressed anew, and the
/// release of left Alt is sent too.
pub proof fn lemma_alt_replayed_once(
    m: HookModel,
    e: KeyEvent,
    next: KeyEvent,
    own_window: bool,
    own_next: bool,
)
    requires
        consistent(m),
        due_replay(m, e, own_window) is Some,
        physical(e) != VK_LEFT_ALT,
        physical(next) != VK_LEFT_ALT,
    ensures
        due_replay(m, e, own_window) == Some(VK_LEFT_ALT),
        ({
            let after = key_step(m, e, own_window, true).0;
            &&& after.alt_synthetic_down
            &&& !after.suppressed.contains(VK_LEFT_ALT)
            &&& due_replay(after, next, own_next) is None
            &&& key_step(after, next, own_next, false).0.alt_synthetic_down
            &&& !key_step(after, next, own_next, false).0.suppressed.contains(VK_LEFT_ALT)
            &&& release(after, VK_LEFT_ALT, true).1.release_alt == Some(VK_LEFT_ALT)
            &&& !release(after, VK_LEFT_ALT, true).1.toggle
        }),
{
}

/// The left and right variants of a modifier count as one key in a shortcut and
/// as two keys otherwise: with both held, releasing one leaves the shortcut's
/// keys as they were.
pub proof fn lemma_sides_count_once(pressed: Set<u16>, left: u16, right: u16)
    requires
        pressed.contains(left),
        pressed.contains(right),
        left != right,
        crate::hotkey::normalized(left) == crate::hotkey::normalized(right),
    ensures
        normalized_set(pressed.remove(left)) == normalized_set(pressed),
        shortcut_of(pressed.remove(left)) == shortcut_of(pressed),
{
    let f = |k: u16| crate::hotkey::normalized(k);
    assert forall|v: u16|
        normalized_set(pressed).contains(v) implies #[trigger] normalized_set(
        pressed.remove(left),
    ).contains(v) by {
        let k = choose|k: u16| pressed.contains(k) && f(k) == v;
        if k == left {
            assert(pressed.remove(left).contains(right));
            assert(f(right) == v);
        } else {
            assert(pressed.remove(left).contains(k));
        }
    }
    assert(normalized_set(pressed.remove(left)) =~= normalized_set(pressed));
}

/// A key goes down with two messages and up with two others.
pub proof fn lemma_event_kinds(e: KeyEvent)
    ensures
        is_down(e) <==> e.message == 0x100 || e.message == 0x104,
        is_up(e) <==> e.message == 0x101 || e.message == 0x105,
        !(is_down(e) && is_up(e)),
{
}

/// The physical key of an event is a side of the key that the event names: right
/// Shift is told by its scan code, right Ctrl and Alt by the extended flag.  An
/// event that names any other key is left as it is, and one of left Alt is that
/// of its own code, or of the generic one with the scan code of Alt and without
/// the extended flag.
pub proof fn lemma_physical_side(e: KeyEvent)
    ensures
        ({
            let raw = e.vk_code as u16;
            let extended = e.flags & 1 != 0;
            &&& crate::hotkey::normalized(physical(e)) == crate::hotkey::normalized(raw)
            &&& physical(e) != 0x10 && physical(e) != 0x11 && physical(e) != 0x12
            &&& raw == 0x10 ==> (physical(e) == 0xA1 <==> e.scan_code == 0x36)
            &&& raw == 0x11 ==> (physical(e) == 0xA3 <==> extended)
            &&& raw == 0x12 ==> (physical(e) == 0xA5 <==> extended)
            &&& raw == 0x10 ==> physical(e) == 0xA0 || physical(e) == 0xA1
            &&& raw == 0x11 ==> physical(e) == 0xA2 || physical(e) == 0xA3
            &&& raw == 0x12 ==> physical(e) == 0xA4 || physical(e) == 0xA5
            &&& raw != 0x10 && raw != 0x11 && raw != 0x12 ==> physical(e) == raw
            &&& left_alt(e) <==> raw == 0xA4 || (raw == 0x12 && !extended && e.scan_code == 0x38)
        }),
{
}

/// A press adds its key to those that are down, a release takes it away, and
/// anything else changes nothing at all.
pub proof fn lemma_keys_down(m: HookModel, e: KeyEvent, own_window: bool, sent: bool)
    ensures
        is_down(e) ==> key_step(m, e, own_window, sent).0.pressed == m.pressed.insert(physical(e)),
        is_up(e) ==> key_step(m, e, own_window, sent).0.pressed == m.pressed.remove(physical(e)),
        !is_down(e) && !is_up(e) ==> key_step(m, e, own_window, sent).0 == m,
        !is_down(e) && !is_up(e) ==> {
            let outcome = key_step(m, e, own_window, sent).1;
            &&& outcome.suppress == m.suppressed.contains(physical(e))
            &&& !outcome.toggle && outcome.shortcut is None && outcome.captured is None
            &&& outcome.release_alt is None
        },
{
}

/// A key belongs to the side-independent keys exactly if one of its sides, or
/// the key itself, is down.
pub proof fn lemma_normalized_keys(keys: Set<u16>, v: u16)
    ensures
        normalized_set(keys).contains(v) <==> exists|k: u16|
            #[trigger] keys.contains(k) && crate::hotkey::normalized(k) == v,
{
    let f = |k: u16| crate::hotkey::normalized(k);
    if normalized_set(keys).contains(v) {
        let k = choose|k: u16| keys.contains(k) && f(k) == v;
        assert(keys.contains(k));
    }
    if exists|k: u16| #[trigger] keys.contains(k) && crate::hotkey::normalized(k) == v {
        let k = choose|k: u16| #[trigger] keys.contains(k) && crate::hotkey::normalized(k) == v;
        assert(f(k) == v);
    }
}

/// A shortcut fires whenever a press completes its keys, on whichever side they
/// are held and whatever else is going on, as long as no key is captured and no
/// shortcut has fired since; it is kept back then.  Other keys fire none.
pub proof fn lemma_shortcut_fires(m: HookModel, e: KeyEvent, own_window: bool, sent: bool)
    requires
        !m.capturing,
        !m.hotkey_fired,
        is_down(e),
        !m.pressed.contains(physical(e)),
    ensures
        ({
            let keys = normalized_set(m.pressed.insert(physical(e)));
            let (after, outcome) = key_step(m, e, own_window, sent);
            &&& keys == set![0x11u16, 0x12u16, 0x20u16] ==> outcome.shortcut == Some(
                Shortcut::BindWindow,
            )
            &&& keys == set![0x11u16, 0x5Au16] ==> outcome.shortcut == Some(Shortcut::NextConfig)
            &&& keys != set![0x11u16, 0x12u16, 0x20u16] && keys != set![0x11u16, 0x5Au16]
                ==> outcome.shortcut is None && !after.hotkey_fired
            &&& outcome.shortcut is Some ==> outcome.suppress && after.hotkey_fired
                && after.suppressed.contains(physical(e)) && !after.left_alt_solo
        }),
{
    let keys = normalized_set(m.pressed.insert(physical(e)));
    assert(key_step(m, e, own_window, sent).0.pressed == m.pressed.insert(physical(e)));
    assert(set![0x11u16, 0x12u16, 0x20u16].contains(0x20u16));
    assert(!set![0x11u16, 0x5Au16].contains(0x20u16));
}

/// A key that is no part of a gesture passes on: a press is kept back only if it
/// is captured, completes a shortcut, is left Alt, or was kept back before, and
/// no other key is kept back by it.
pub proof fn lemma_other_keys_pass(m: HookModel, e: KeyEvent, own_window: bool, sent: bool)
    requires
        is_down(e),
        !left_alt(e),
        !m.capturing || m.pressed.contains(physical(e)),
        key_step(m, e, own_window, sent).1.shortcut is None,
    ensures
        key_step(m, e, own_window, sent).1.suppress ==> m.suppressed.contains(physical(e)),
        forall|k: u16|
            key_step(m, e, own_window, sent).0.suppressed.contains(k) ==> m.suppressed.contains(k),
{
}

/// Left Alt is kept back only as a gesture of its own: with another key down, or
/// in front of the program's own window, its press changes nothing of what is
/// kept back.
pub proof fn lemma_alt_beside_keys_passes(
    m: HookModel,
    e: KeyEvent,
    own_window: bool,
    sent: bool,
    other: u16,
)
    requires
        is_down(e),
        left_alt(e),
        !m.left_alt_down,
        !m.capturing,
        own_window || (m.pressed.contains(other) && other != physical(e)),
        key_step(m, e, own_window, sent).1.shortcut is None,
    ensures
        key_step(m, e, own_window, sent).0.suppressed == m.suppressed,
        key_step(m, e, own_window, sent).0.left_alt_down,
        m.pressed.contains(other) && other != physical(e) ==> !key_step(
            m,
            e,
            own_window,
            sent,
        ).0.left_alt_solo,
{
}

/// A kept-back Alt press is due as soon as another key is newly pressed while
/// left Alt is down, unless the program's own window is in front; never
/// otherwise.  Once it is sent, the combination reaches the other program.
pub proof fn lemma_alt_becomes_due(m: HookModel, e: KeyEvent, own_window: bool)
    requires
        consistent(m),
    ensures
        due_replay(m, e, own_window) == Some(0xA4u16) <==> {
            &&& is_down(e)
            &&& !left_alt(e)
            &&& !m.pressed.contains(physical(e))
            &&& m.left_alt_down
            &&& m.suppressed.contains(0xA4u16)
            &&& !own_window
        },
        due_replay(m, e, own_window) is Some ==> due_replay(m, e, own_window) == Some(0xA4u16)
            && key_step(m, e, own_window, true).0.alt_synthetic_down,
        due_replay(m, e, own_window) is None && is_down(e) ==> key_step(
            m,
            e,
            own_window,
            true,
        ).0.alt_synthetic_down == m.alt_synthetic_down,
        key_step(m, e, own_window, false).0.alt_synthetic_down ==> m.alt_synthetic_down,
{
}

/// The release of left Alt ends its gesture: it is up, its lone press toggles,
/// and an Alt press that was sent on is released.  No other release does so.
pub proof fn lemma_alt_release(m: HookModel, e: KeyEvent, own_window: bool, sent: bool)
    requires
        is_up(e),
    ensures
        ({
            let (after, outcome) = key_step(m, e, own_window, sent);
            &&& left_alt(e) ==> !after.left_alt_down && !after.left_alt_solo
                && !after.alt_synthetic_down
            &&& !left_alt(e) ==> after.left_alt_down == m.left_alt_down && after.left_alt_solo
                == m.left_alt_solo && after.alt_synthetic_down == m.alt_synthetic_down
            &&& outcome.toggle <==> left_alt(e) && m.left_alt_solo
            &&& outcome.release_alt == (if left_alt(e) && m.alt_synthetic_down {
                Some(physical(e))
            } else {
                None
            })
            &&& outcome.suppress == m.suppressed.contains(physical(e))
            &&& outcome.shortcut is None && outcome.captured is None
        }),
{
}

/// A shortcut can fire again once a key that is no modifier is released, or the
/// last key is; the release of a modifier beside other keys does not rearm it.
pub proof fn lemma_shortcut_rearms(m: HookModel, e: KeyEvent, own_window: bool, sent: bool)
    requires
        is_up(e),
    ensures
        ({
            let after = key_step(m, e, own_window, sent).0;
            &&& !crate::hotkey::modifier(physical(e)) ==> !after.hotkey_fired
            &&& after.pressed.is_empty() ==> !after.hotkey_fired
            &&& crate::hotkey::modifier(physical(e)) && !after.pressed.is_empty()
                ==> after.hotkey_fired == m.hotkey_fired
        }),
{
}

/// Nothing is captured unless asked for; asking, or taking it back, forgets the
/// keys that are down and nothing else.
pub proof fn lemma_capture_is_asked_for(
    m: HookModel,
    e: KeyEvent,
    own_window: bool,
    sent: bool,
    capturing: bool,
)
    ensures
        key_step(m, e, own_window, sent).1.captured is Some ==> m.capturing && is_down(e)
            && !m.pressed.contains(physical(e)),
        !m.capturing ==> !key_step(m, e, own_window, sent).0.capturing,
        with_capture(m, capturing).capturing == capturing,
        with_capture(m, capturing).pressed == Set::<u16>::empty(),
        with_capture(m, capturing).suppressed == m.suppressed,
        with_capture(m, capturing).left_alt_down == m.left_alt_down,
        with_capture(m, capturing).left_alt_solo == m.left_alt_solo,
        with_capture(m, capturing).alt_synthetic_down == m.alt_synthetic_down,
        with_capture(m, capturing).hotkey_fired == m.hotkey_fired,
{
}

// ---------------------------------------------------------------------------
// Auxiliary input events
// ---------------------------------------------------------------------------
pub const KEYEVENTF_EXTENDEDKEY: u32 = 0x1;

pub const KEYEVENTF_KEYUP: u32 = 0x2;

/// The flags of an auxiliary key event that replays or releases a modifier.
pub fn modifier_event_flags(vk: u16, key_up: bool) -> (flags: u32)
    ensures
        flags == (if key_up {
            KEYEVENTF_KEYUP
        } else {
            0
        }) + (if vk == 0xA3 || vk == 0xA5 || vk == 0x5B || vk == 0x5C {
            KEYEVENTF_EXTENDEDKEY
        } else {
            0
        }),
{
    let mut flags: u32 = 0;
    if key_up {
        flags = KEYEVENTF_KEYUP;
    }
    if vk == 0xA3 || vk == 0xA5 || vk == 0x5B || vk == 0x5C {
        assert(0u32 | 0x1u32 == 1u32) by (bit_vector);
        assert(0x2u32 | 0x1u32 == 3u32) by (bit_vector);
        flags = flags | KEYEVENTF_EXTENDEDKEY;
    }
    flags
}

// ---------------------------------------------------------------------------
// Right-button drag
// ---------------------------------------------------------------------------
pub const WM_RBUTTONDOWN: u32 = 0x204;

pub const WM_RBUTTONUP: u32 = 0x205;

/// A drag of more than this many pixels binds the window where it ends.
pub const RIGHT_DRAG_THRESHOLD: u32 = 8;

/// Where a right-button drag began, while the button is down.
#[derive(Debug, Clone, Copy, PartialEq, Eq)]
pub struct RightDrag {
    pub start: Option<(i32, i32)>,
}

/// The square of the distance between two points.
pub open spec fn distance_squared(a: (i32, i32), b: (i32, i32)) -> int {
    (b.0 - a.0) * (b.0 - a.0) + (b.1 - a.1) * (b.1 - a.1)
}

impl RightDrag {
    /// No button is down.
    pub fn new() -> (r: RightDrag)
        ensures
            r.start is None,
    {
        RightDrag { start: None }
    }

    /// Takes in one mouse event and says whether it ends a drag that is long
    /// enough to bind the window at its position.
    pub fn handle_mouse_event(&mut self, message: u32, x: i32, y: i32) -> (bind: bool)
        ensures
            final(self).start == (if message == WM_RBUTTONDOWN {
                Some((x, y))
            } else if message == WM_RBUTTONUP {
                None
            } else {
                old(self).start
            }),
            bind == (message == WM_RBUTTONUP && old(self).start is Some && distance_squared(
                old(self).start->0,
                (x, y),
            ) > RIGHT_DRAG_THRESHOLD * RIGHT_DRAG_THRESHOLD),
    {
        if message == WM_RBUTTONDOWN {
            self.start = Some((x, y));
            return false;
        }
        if message == WM_RBUTTONUP {
            match self.start {
                Some((start_x, start_y)) => {
                    self.start = None;
                    let dx: i128 = (x as i128) - (start_x as i128);
                    let dy: i128 = (y as i128) - (start_y as i128);
                    assert(0 <= dx * dx <= 0x1_0000_0000 * 0x1_0000_0000) by (nonlinear_arith)
                        requires
                            -0x1_0000_0000 <= dx <= 0x1_0000_0000,
                    ;
                    assert(0 <= dy * dy <= 0x1_0000_0000 * 0x1_0000_0000) by (nonlinear_arith)
                        requires
                            -0x1_0000_0000 <= dy <= 0x1_0000_0000,
                    ;
                    return dx * dx + dy * dy > 64;
                },
                None => {
                    return false;
                },
            }
        }
        false
    }
}

/// The distance of a drag is that of plane geometry: along one axis it is the
/// number of pixels, and across it is made up of both; so a drag along an axis
/// binds from the ninth pixel on, and a drag back has the same length.
pub proof fn lemma_drag_distance(a: (i32, i32), b: (i32, i32))
    ensures
        distance_squared(a, b) == distance_squared(a, (b.0, a.1)) + distance_squared((b.0, a.1), b),
        distance_squared(a, (b.0, a.1)) == (b.0 - a.0) * (b.0 - a.0),
        distance_squared((b.0, a.1), b) == (b.1 - a.1) * (b.1 - a.1),
        distance_squared(a, b) == distance_squared(b, a),
        a.1 == b.1 ==> (distance_squared(a, b) > 8 * 8 <==> b.0 - a.0 > 8 || a.0 - b.0 > 8),
        a.0 == b.0 ==> (distance_squared(a, b) > 8 * 8 <==> b.1 - a.1 > 8 || a.1 - b.1 > 8),
{
    let dx = b.0 - a.0;
    let dy = b.1 - a.1;
    assert((-dx) * (-dx) == dx * dx) by (nonlinear_arith);
    assert((-dy) * (-dy) == dy * dy) by (nonlinear_arith);
    assert(0int * 0int == 0);
    assert(dx * dx > 64 <==> dx > 8 || dx < -8) by (nonlinear_arith);
    assert(dy * dy > 64 <==> dy > 8 || dy < -8) by (nonlinear_arith);
}

/// A hook that has seen nothing holds nothing: no key is down or kept back, no
/// gesture has begun, and no key is asked for.
pub proof fn lemma_new_hook(hook: HookState, k: u16)
    requires
        call_ensures(HookState::new, (), hook),
    ensures
        !hook@.pressed.contains(k) && !hook@.suppressed.contains(k),
        !hook@.hotkey_fired && !hook@.capturing,
        !hook@.left_alt_down && !hook@.left_alt_solo && !hook@.alt_synthetic_down,
{
}

/// What another program made up, and what the system says not to look at, is not
/// looked at; everything else is.
pub proof fn lemma_accepted_events(code: i32, has_event: bool, flags: u32, r: bool)
    requires
        call_ensures(accepts_event, (code, has_event, flags), r),
    ensures
        code < 0 || !has_event || flags & 0x10 == 0x10 ==> !r,
        code >= 0 && has_event && flags & 0x10 == 0 ==> r,
{
    assert(flags & 0x10 == 0x10 ==> flags & 0x10 != 0) by (bit_vector);
}

/// An event that is kept back is kept from others whatever else is done; one that
/// stands for an Alt release only if that release was sent in its place.
pub proof fn lemma_swallowed(outcome: &KeyOutcome, unsent: bool, sent: bool)
    requires
        call_ensures(is_swallowed, (outcome, false), unsent),
        call_ensures(is_swallowed, (outcome, true), sent),
    ensures
        unsent == outcome.suppress,
        unsent ==> sent,
        sent && !unsent ==> outcome.release_alt is Some,
        outcome.release_alt is Some ==> sent,
{
}

/// The flags of a modifier's release are those of its press and the one for a
/// release; the right hand keys and those with the Windows mark are extended.
pub proof fn lemma_modifier_flags(vk: u16, down: u32, up: u32)
    requires
        call_ensures(modifier_event_flags, (vk, false), down),
        call_ensures(modifier_event_flags, (vk, true), up),
    ensures
        up == down + 2,
        down == 0 || down == 1,
        down == 1 <==> vk == 0xA3 || vk == 0xA5 || vk == 0x5B || vk == 0x5C,
{
}

/// The right button binds a window when it is let go more than eight pixels from
/// where it was pressed, and then once; moving and other buttons change nothing.
pub proof fn lemma_drag(
    pressed: &mut RightDrag,
    moved: &mut RightDrag,
    released: &mut RightDrag,
    again: &mut RightDrag,
    from: (i32, i32),
    to: (i32, i32),
    other: u32,
    binds: (bool, bool, bool, bool),
)
    requires
        other != 0x0204 && other != 0x0205,
        call_ensures(RightDrag::handle_mouse_event, (pressed, 0x0204, from.0, from.1), binds.0),
        *old(moved) == *final(pressed),
        call_ensures(RightDrag::handle_mouse_event, (moved, other, to.0, to.1), binds.1),
        *old(released) == *final(moved),
        call_ensures(RightDrag::handle_mouse_event, (released, 0x0205, to.0, to.1), binds.2),
        *old(again) == *final(released),
        call_ensures(RightDrag::handle_mouse_event, (again, 0x0205, from.0, from.1), binds.3),
    ensures
        !binds.0 && !binds.1 && !binds.3,
        binds.2 <==> (to.0 - from.0) * (to.0 - from.0) + (to.1 - from.1) * (to.1 - from.1) > 64,
{
}

} // verus!
