//! What is sent for a key event, and to whom.
use crate::stealth::{random_extra_info, randomize_lparam};
use crate::text::{concat3, format_decimal};
use crate::window::{BindingSnapshot, WindowBinding};
use vstd::prelude::*;

verus! {

/// The messages for a press and a release.
pub const WM_KEYDOWN: u32 = 0x100;

pub const WM_KEYUP: u32 = 0x101;

/// The flags of an injected event for an extended key and for a release.
pub const KEYEVENTF_EXTENDEDKEY: u32 = 1;

pub const KEYEVENTF_KEYUP: u32 = 2;

/// Who gets the key events.
#[derive(Debug, Clone, Copy, PartialEq, Eq, Structural)]
pub enum InputTarget {
    /// Whatever window is in front.
    Foreground,
    /// The window with the given handle.
    Window(isize),
}

/// Who gets the key events: the bound window, or the one in front where none is
/// bound.
pub open spec fn target_of(snapshot: Option<BindingSnapshot>) -> InputTarget {
    match snapshot {
        Some(snapshot) => InputTarget::Window(snapshot@.target.hwnd),
        None => InputTarget::Foreground,
    }
}

/// Who gets the key events.
pub fn input_target(snapshot: &Option<BindingSnapshot>) -> (r: InputTarget)
    ensures
        r == target_of(*snapshot),
{
    match snapshot {
        Some(snapshot) => InputTarget::Window(snapshot.target().hwnd()),
        None => InputTarget::Foreground,
    }
}

/// Unbinds a window that turned out not to exist any more when a key could not
/// be sent.
pub fn unbind_after_failure(
    binding: &mut WindowBinding,
    snapshot: &BindingSnapshot,
    window_valid: bool,
) -> (r: bool)
    ensures
        r == (!window_valid && crate::window::is_of(snapshot@, old(binding)@)),
        final(binding)@ == if r {
            (crate::window::BindingModel {
                generation: crate::window::next_generation(old(binding)@.generation),
                target: None,
            })
        } else {
            old(binding)@
        },
{
    if window_valid {
        false
    } else {
        binding.clear_if_current(snapshot)
    }
}

/// The message for a code that no key has.
pub open spec fn range_message(vk_code: u16) -> Seq<char> {
    "虚拟键码 "@ + crate::text::decimal(vk_code as nat) + " 超出有效范围 1..=254"@
}

/// Whether a code is that of a key.
pub fn validate_vk(vk_code: u16) -> (r: Result<(), String>)
    ensures
        r is Ok <==> crate::config::pressable(vk_code),
        r matches Err(message) ==> message@ == range_message(vk_code),
{
    if vk_code < 1 || vk_code > 254 {
        Err(concat3("虚拟键码 ", &format_decimal(vk_code as u64), " 超出有效范围 1..=254"))
    } else {
        Ok(())
    }
}

/// The keys that came with the extended keyboard: the block of cursor keys, the
/// Windows and menu keys, Num Lock and the right Ctrl and Alt.
pub open spec fn extended(vk: u16) -> bool {
    ||| 0x21 <= vk <= 0x28
    ||| vk == 0x2d
    ||| vk == 0x2e
    ||| 0x5b <= vk <= 0x5d
    ||| vk == 0x90
    ||| vk == 0xa3
    ||| vk == 0xa5
}

/// Whether a key is an extended one.
pub fn is_extended_key(vk: u16) -> (r: bool)
    ensures
        r == extended(vk),
{
    match vk {
        0x21 | 0x22 | 0x23 | 0x24 | 0x25 | 0x26 | 0x27 | 0x28 => true,
        0x2d | 0x2e => true,
        0x5b | 0x5c | 0x5d => true,
        0x90 | 0xa3 | 0xa5 => true,
        _ => false,
    }
}

/// The parameter of a key message before noise: one repetition, the scan code,
/// the mark for extended keys, and for a release the two marks for it.
pub open spec fn message_bits_of(vk: u16, scan_code: u32, is_key_up: bool) -> u32 {
    let base = 1u32 | (scan_code << 16);
    let marked = if extended(vk) {
        base | 0x0100_0000
    } else {
        base
    };
    if is_key_up {
        marked | 0xc000_0000
    } else {
        marked
    }
}

/// The parameter of a key message before noise.
pub fn message_bits(vk: u16, scan_code: u32, is_key_up: bool) -> (r: u32)
    ensures
        r == message_bits_of(vk, scan_code, is_key_up),
{
    let base: u32 = 1u32 | (scan_code << 16);
    let marked: u32 = if is_extended_key(vk) {
        base | 0x0100_0000
    } else {
        base
    };
    if is_key_up {
        marked | 0xc000_0000
    } else {
        marked
    }
}

/// A scan code of one byte is found where it belongs, the message counts once,
/// and a press and a release differ in the two marks for a release alone.
pub proof fn lemma_message_bits(vk: u16, scan_code: u32)
    requires
        scan_code <= 0xff,
    ensures
        message_bits_of(vk, scan_code, false) & 0x00ff_0000 == scan_code << 16,
        message_bits_of(vk, scan_code, false) & 0xffff == 1,
        message_bits_of(vk, scan_code, false) & 0xc000_0000 == 0,
        message_bits_of(vk, scan_code, true) == message_bits_of(vk, scan_code, false) | 0xc000_0000,
        (message_bits_of(vk, scan_code, false) & 0x0100_0000 != 0) == extended(vk),
{
    let base = 1u32 | (scan_code << 16);
    assert(base & 0x00ff_0000 == scan_code << 16 && base & 0xffff == 1 && base & 0xc000_0000 == 0
        && base & 0x0100_0000 == 0) by (bit_vector)
        requires
            base == 1u32 | (scan_code << 16),
            scan_code <= 0xff,
    ;
    let marked = base | 0x0100_0000;
    assert(marked & 0x00ff_0000 == base & 0x00ff_0000 && marked & 0xffff == base & 0xffff && marked
        & 0xc000_0000 == base & 0xc000_0000 && marked & 0x0100_0000 != 0) by (bit_vector)
        requires
            marked == base | 0x0100_0000,
    ;
}

/// The flags of an injected event.
pub open spec fn event_flags_of(vk: u16, is_key_up: bool) -> u32 {
    (if is_key_up {
        KEYEVENTF_KEYUP
    } else {
        0
    }) | (if extended(vk) {
        KEYEVENTF_EXTENDEDKEY
    } else {
        0
    })
}

/// The flags of an injected event.
pub fn event_flags(vk: u16, is_key_up: bool) -> (r: u32)
    ensures
        r == event_flags_of(vk, is_key_up),
{
    let up: u32 = if is_key_up {
        KEYEVENTF_KEYUP
    } else {
        0
    };
    let far: u32 = if is_extended_key(vk) {
        KEYEVENTF_EXTENDEDKEY
    } else {
        0
    };
    up | far
}

/// What the system and chance say when a key event is sent.
#[derive(Debug, Clone, Copy, PartialEq, Eq, Structural)]
pub struct KeyFacts {
    /// The scan code of the key.
    pub scan_code: u32,
    /// The target is a window.
    pub is_window: bool,
    /// A repetition was drawn.
    pub repeat: bool,
}

/// A key event that is to be sent.
#[derive(Debug, Clone, Copy, PartialEq, Eq, Structural)]
pub enum KeyDispatch {
    /// Injected in front.
    Inject { vk_code: u16, flags: u32, extra_info: usize },
    /// Posted to a window.
    Post { hwnd: isize, message: u32, vk_code: u16, lparam: isize },
}

/// Whether a key event is the one to send for a key.
pub open spec fn dispatches(
    target: InputTarget,
    vk: u16,
    is_key_up: bool,
    facts: KeyFacts,
    sent: KeyDispatch,
) -> bool {
    match target {
        InputTarget::Foreground => exists|value: u64|
            {
                &&& crate::stealth::EXTRA_INFO_LOW <= value < crate::stealth::EXTRA_INFO_HIGH
                &&& sent == (KeyDispatch::Inject {
                    vk_code: vk,
                    flags: event_flags_of(vk, is_key_up),
                    extra_info: #[trigger] (value as usize),
                })
            },
        InputTarget::Window(hwnd) => exists|noise: u32|
            sent == (KeyDispatch::Post {
                hwnd,
                message: if is_key_up {
                    WM_KEYUP
                } else {
                    WM_KEYDOWN
                },
                vk_code: vk,
                lparam: #[trigger] crate::stealth::lparam_of(
                    message_bits_of(vk, facts.scan_code, is_key_up),
                    is_key_up,
                    noise,
                    facts.repeat,
                ) as isize,
            }),
    }
}

/// The key event to send for a key, or why none is sent: the code is not that of
/// a key, or the bound window does not exist any more.
pub fn send_key_event(target: InputTarget, vk_code: u16, is_key_up: bool, facts: KeyFacts) -> (r:
    Result<KeyDispatch, String>)
    ensures
        match r {
            Ok(sent) => {
                &&& crate::config::pressable(vk_code)
                &&& target is Window ==> facts.is_window
                &&& dispatches(target, vk_code, is_key_up, facts, sent)
            },
            Err(message) => if !crate::config::pressable(vk_code) {
                message@ == range_message(vk_code)
            } else {
                target is Window && !facts.is_window && message@ == "绑定窗口已失效"@
            },
        },
{
    if let Err(message) = validate_vk(vk_code) {
        return Err(message);
    }
    match target {
        InputTarget::Foreground => {
            let extra_info: usize = random_extra_info();
            Ok(
                KeyDispatch::Inject {
                    vk_code,
                    flags: event_flags(vk_code, is_key_up),
                    extra_info,
                },
            )
        },
        InputTarget::Window(hwnd) => {
            if !facts.is_window {
                return Err("绑定窗口已失效".to_owned());
            }
            let bits: u32 = message_bits(vk_code, facts.scan_code, is_key_up);
            let lparam: isize = randomize_lparam(bits, is_key_up, facts.repeat);
            let message: u32 = if is_key_up {
                WM_KEYUP
            } else {
                WM_KEYDOWN
            };
            Ok(KeyDispatch::Post { hwnd, message, vk_code, lparam })
        },
    }
}

/// The event for the press of a key.
pub fn key_down(target: InputTarget, vk_code: u16, facts: KeyFacts) -> (r: Result<
    KeyDispatch,
    String,
>)
    ensures
        match r {
            Ok(sent) => {
                &&& crate::config::pressable(vk_code)
                &&& target is Window ==> facts.is_window
                &&& dispatches(target, vk_code, false, facts, sent)
            },
            Err(message) => if !crate::config::pressable(vk_code) {
                message@ == range_message(vk_code)
            } else {
                target is Window && !facts.is_window && message@ == "绑定窗口已失效"@
            },
        },
{
    send_key_event(target, vk_code, false, facts)
}

/// The event for the release of a key.
pub fn key_up(target: InputTarget, vk_code: u16, facts: KeyFacts) -> (r: Result<
    KeyDispatch,
    String,
>)
    ensures
        match r {
            Ok(sent) => {
                &&& crate::config::pressable(vk_code)
                &&& target is Window ==> facts.is_window
                &&& dispatches(target, vk_code, true, facts, sent)
            },
            Err(message) => if !crate::config::pressable(vk_code) {
                message@ == range_message(vk_code)
            } else {
                target is Window && !facts.is_window && message@ == "绑定窗口已失效"@
            },
        },
{
    send_key_event(target, vk_code, true, facts)
}

/// Whether injecting one event succeeded, by the number of events that the
/// system took.
pub fn injection_result(sent: u32) -> (r: Result<(), String>)
    ensures
        r is Ok <==> sent == 1,
        r matches Err(message) ==> message@ == "SendInput 仅发送了 "@ + crate::text::decimal(
            sent as nat,
        ) + " 个事件"@,
{
    if sent == 1 {
        Ok(())
    } else {
        Err(concat3("SendInput 仅发送了 ", &format_decimal(sent as u64), " 个事件"))
    }
}

/// The message for an event that could not be posted.
pub fn post_failure(is_key_up: bool) -> (r: String)
    ensures
        r@ == if is_key_up {
            "投递 KeyUp 失败"@
        } else {
            "投递 KeyDown 失败"@
        },
{
    if is_key_up {
        "投递 KeyUp 失败".to_owned()
    } else {
        "投递 KeyDown 失败".to_owned()
    }
}

/// Keys go to the bound window, whichever it is, and to the one in front exactly
/// where none is bound.
pub proof fn lemma_target(snapshot: Option<BindingSnapshot>, hwnd: isize)
    ensures
        target_of(snapshot) is Foreground <==> snapshot is None,
        target_of(snapshot) == InputTarget::Window(hwnd) <==> snapshot is Some
            && snapshot->Some_0@.target.hwnd == hwnd,
{
}

/// The extended keys, one by one: of the keys with two sides only the right one
/// of Ctrl and Alt, both of Win, and none of Shift.
pub proof fn lemma_extended_keys(vk: u16)
    ensures
        extended(vk) <==> seq![
            0x21u16, 0x22, 0x23, 0x24, 0x25, 0x26, 0x27, 0x28, 0x2d, 0x2e, 0x5b, 0x5c, 0x5d, 0x90,
            0xa3, 0xa5,
        ].contains(vk),
{
    let keys = seq![
        0x21u16, 0x22, 0x23, 0x24, 0x25, 0x26, 0x27, 0x28, 0x2d, 0x2e, 0x5b, 0x5c, 0x5d, 0x90, 0xa3,
        0xa5,
    ];
    assert(keys[0] == 0x21 && keys[1] == 0x22 && keys[2] == 0x23 && keys[3] == 0x24 && keys[4]
        == 0x25 && keys[5] == 0x26 && keys[6] == 0x27 && keys[7] == 0x28 && keys[8] == 0x2d
        && keys[9] == 0x2e && keys[10] == 0x5b && keys[11] == 0x5c && keys[12] == 0x5d && keys[13]
        == 0x90 && keys[14] == 0xa3 && keys[15] == 0xa5);
    if keys.contains(vk) {
        let i = choose|i: int| 0 <= i < keys.len() && keys[i] == vk;
        assert(0 <= i < 16);
    }
}

/// The flags of an injected event tell whether it is a release and whether the
/// key is an extended one, and nothing else.
pub proof fn lemma_event_flags(vk: u16, is_key_up: bool)
    ensures
        event_flags_of(vk, is_key_up) & 2 != 0 <==> is_key_up,
        event_flags_of(vk, is_key_up) & 1 != 0 <==> extended(vk),
        event_flags_of(vk, is_key_up) <= 3,
{
    assert(0u32 | 0u32 == 0u32 && 2u32 | 0u32 == 2u32 && 0u32 | 1u32 == 1u32 && 2u32 | 1u32 == 3u32)
        by (bit_vector);
    assert(0u32 & 2u32 == 0u32 && 2u32 & 2u32 == 2u32 && 1u32 & 2u32 == 0u32 && 3u32 & 2u32 == 2u32)
        by (bit_vector);
    assert(0u32 & 1u32 == 0u32 && 2u32 & 1u32 == 0u32 && 1u32 & 1u32 == 1u32 && 3u32 & 1u32 == 1u32)
        by (bit_vector);
}

/// What is sent for a key is for that key and goes where it was to go: injected
/// in front, or posted to the window and to no other, as a press or a release.
pub proof fn lemma_dispatch(
    target: InputTarget,
    vk: u16,
    is_key_up: bool,
    facts: KeyFacts,
    sent: KeyDispatch,
)
    requires
        dispatches(target, vk, is_key_up, facts, sent),
    ensures
        target is Foreground <==> sent is Inject,
        match sent {
            KeyDispatch::Inject { vk_code, flags, .. } => {
                &&& vk_code == vk
                &&& flags & 2 != 0 <==> is_key_up
                &&& flags & 1 != 0 <==> extended(vk)
            },
            KeyDispatch::Post { hwnd, message, vk_code, lparam } => {
                &&& vk_code == vk
                &&& target == InputTarget::Window(hwnd)
                &&& is_key_up ==> message == 0x101 && lparam == message_bits_of(
                    vk,
                    facts.scan_code,
                    true,
                ) as isize
                &&& !is_key_up ==> message == 0x100
            },
        },
{
    lemma_event_flags(vk, is_key_up);
}

/// The message for a code that no key has tells the code.
pub proof fn lemma_range_message(vk: u16, other: u16)
    ensures
        range_message(vk) == range_message(other) <==> vk == other,
        crate::text::occurs_in(range_message(vk), crate::text::decimal(vk as nat)),
{
    let (x, y) = (crate::text::decimal(vk as nat), crate::text::decimal(other as nat));
    let (head, tail) = ("虚拟键码 "@, " 超出有效范围 1..=254"@);
    crate::text::lemma_occurrence(head, x, tail, x);
    let (a, b) = (range_message(vk), range_message(other));
    assert(a.len() == head.len() + x.len() + tail.len());
    assert(b.len() == head.len() + y.len() + tail.len());
    assert(a.subrange(head.len() as int, a.len() - tail.len()) =~= x);
    assert(b.subrange(head.len() as int, b.len() - tail.len()) =~= y);
    crate::text::lemma_decimal_round_trip(vk as nat);
    crate::text::lemma_decimal_round_trip(other as nat);
}

/// A window that is still there stays bound after a failure; one that is gone is
/// no longer bound, unless another was bound in its place meanwhile.
pub proof fn lemma_unbinding(
    binding: &mut WindowBinding,
    snapshot: &BindingSnapshot,
    window_valid: bool,
    r: bool,
)
    requires
        call_ensures(unbind_after_failure, (binding, snapshot, window_valid), r),
    ensures
        window_valid ==> !r,
        snapshot@.generation != old(binding)@.generation ==> !r,
        !window_valid && snapshot@.generation == old(binding)@.generation ==> r,
        r ==> final(binding)@.target is None && final(binding)@.generation
            != old(binding)@.generation,
        !r ==> final(binding)@ == old(binding)@,
{
}

/// One event sent is success; any other number is told.
pub proof fn lemma_injection(sent: u32, r: Result<(), String>)
    requires
        call_ensures(injection_result, (sent,), r),
    ensures
        sent == 1 ==> r is Ok,
        sent != 1 ==> r is Err && crate::text::occurs_in(
            r->Err_0@,
            crate::text::decimal(sent as nat),
        ),
{
    let none = Seq::<char>::empty();
    crate::text::lemma_occurrence(
        "SendInput 仅发送了 "@,
        crate::text::decimal(sent as nat),
        " 个事件"@,
        none,
    );
}

/// A key event fails just for a key that cannot be pressed, from 1 to 254, and for
/// a window that is gone.
pub proof fn lemma_sending(
    target: InputTarget,
    vk_code: u16,
    is_key_up: bool,
    facts: KeyFacts,
    r: Result<KeyDispatch, String>,
)
    requires
        call_ensures(send_key_event, (target, vk_code, is_key_up, facts), r),
    ensures
        r is Ok <==> 1 <= vk_code <= 254 && !(target is Window && !facts.is_window),
{
}

/// A press posted to a window carries the scan code and the marks of its key; it
/// counts twice where a repetition was drawn, and as often as the key's own message
/// else.
pub proof fn lemma_posted_press(hwnd: isize, vk: u16, facts: KeyFacts, sent: KeyDispatch)
    requires
        dispatches(InputTarget::Window(hwnd), vk, false, facts, sent),
    ensures
        exists|bits: u32|
            {
                let meant = message_bits_of(vk, facts.scan_code, false);
                &&& sent->lparam == #[trigger] (bits as isize)
                &&& bits & 0xe1ff_0000 == meant & 0xe1ff_0000
                &&& facts.repeat ==> bits & 0xffff == 2
                &&& !facts.repeat ==> bits & 0xffff == meant & 0xffff
            },
{
    let meant = message_bits_of(vk, facts.scan_code, false);
    let noise = choose|noise: u32|
        sent == (KeyDispatch::Post {
            hwnd,
            message: WM_KEYDOWN,
            vk_code: vk,
            lparam: #[trigger] crate::stealth::lparam_of(
                meant,
                false,
                noise,
                facts.repeat,
            ) as isize,
        });
    let bits = crate::stealth::lparam_of(meant, false, noise, facts.repeat);
    crate::stealth::lemma_lparam_keeps_meaning(meant, false, noise, facts.repeat);
    assert(sent->lparam == bits as isize);
}

} // verus!
