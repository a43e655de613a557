//! What the main window does with what its user does.
use crate::commands::{AppCommand, UiAction};
use crate::config::{Config, KeyConfig, KEY_SLOT_COUNT, UNSET_KEY_NAME};
use crate::hotkey::key_display_name;
use crate::session::is_due;
use crate::store::{AppPreferences, DEFAULT_HEIGHT_BITS, INFINITE_BITS, SIGN_BIT};
use crate::text::{concat, concat3, format_decimal, format_hexadecimal, to_chars};
use crate::tray::ShownState;
use vstd::prelude::*;

verus! {

/// A failed update of the taskbar is tried again after so many milliseconds.
pub const TASKBAR_ICON_RETRY_INTERVAL_MS: u64 = 500;

/// A window that was started at login is hidden after so many milliseconds.
pub const AUTOSTART_HIDE_DELAY_MS: u64 = 750;

/// An Alt key that the hook took note of is not taken note of again within so
/// many milliseconds.
pub const ALT_FALLBACK_INTERVAL_MS: u64 = 300;

// ---------------------------------------------------------------------------
// Setting a key
// ---------------------------------------------------------------------------
/// A key that was set to the given code; zero unsets it.
pub open spec fn with_code(key: crate::config::KeyModel, vk: u16) -> crate::config::KeyModel {
    crate::config::KeyModel {
        vk_code: vk,
        key_name: if vk == 0 {
            UNSET_KEY_NAME@
        } else {
            crate::hotkey::display_name(vk)
        },
        ..key
    }
}

/// A profile with one key set.
pub open spec fn with_captured(
    config: crate::config::ConfigModel,
    row: Option<usize>,
    vk: u16,
) -> crate::config::ConfigModel {
    match row {
        Some(row) => if row < config.keys.len() {
            crate::config::ConfigModel {
                keys: config.keys.update(row as int, with_code(config.keys[row as int], vk)),
                ..config
            }
        } else {
            config
        },
        None => config,
    }
}

/// Sets the key for which a press was asked.  Nothing is asked for any more
/// after that.
pub fn apply_ui_action(config: &mut Config, capturing: &mut Option<usize>, action: UiAction)
    ensures
        *final(capturing) is None,
        final(config)@ == match action {
            UiAction::CapturedKey(vk) => with_captured(old(config)@, *old(capturing), vk),
        },
{
    let UiAction::CapturedKey(vk) = action;
    let row = *capturing;
    *capturing = None;
    if let Some(row) = row {
        if row < config.keys.len() {
            let ghost before = config@;
            let mut key: KeyConfig = config.keys[row].clone();
            key.vk_code = vk;
            key.key_name = if vk == 0 {
                UNSET_KEY_NAME.to_owned()
            } else {
                key_display_name(vk)
            };
            config.keys.set(row, key);
            assert(config@.keys =~= before.keys.update(
                row as int,
                with_code(before.keys[row as int], vk),
            ));
        }
    }
}

/// Whether a press is asked for.
#[derive(Debug, Clone, Copy, PartialEq, Eq, Structural)]
pub enum CaptureRequest {
    Begin,
    Cancel,
}

/// A click on the button of a row: a press is asked for that row, or no longer
/// if it was already.
pub fn click_key_button(capturing: &mut Option<usize>, row: usize) -> (r: CaptureRequest)
    ensures
        *old(capturing) == Some(row) ==> *final(capturing) is None && r == CaptureRequest::Cancel,
        *old(capturing) != Some(row) ==> *final(capturing) == Some(row) && r
            == CaptureRequest::Begin,
{
    let cancels: bool = match *capturing {
        Some(asked) => asked == row,
        None => false,
    };
    if cancels {
        *capturing = None;
        CaptureRequest::Cancel
    } else {
        *capturing = Some(row);
        CaptureRequest::Begin
    }
}

// ---------------------------------------------------------------------------
// Editing the rows
// ---------------------------------------------------------------------------
/// What was changed in a row.
#[derive(Debug, Clone, Copy, PartialEq, Eq)]
pub struct RowEdit {
    pub base_delay: Option<u32>,
    pub random_range: Option<u32>,
    pub enabled: Option<bool>,
}

/// A key with the changes of its row.
pub open spec fn edited(key: crate::config::KeyModel, edit: RowEdit) -> crate::config::KeyModel {
    crate::config::KeyModel {
        base_delay: match edit.base_delay {
            Some(value) => value,
            None => key.base_delay,
        },
        random_range: match edit.random_range {
            Some(value) => value,
            None => key.random_range,
        },
        enabled: match edit.enabled {
            Some(value) => value,
            None => key.enabled,
        },
        ..key
    }
}

/// The keys with the changes of their rows.
pub open spec fn edited_keys(keys: Seq<crate::config::KeyModel>, edits: Seq<RowEdit>) -> Seq<
    crate::config::KeyModel,
> {
    Seq::new(
        keys.len(),
        |i: int|
            if i < edits.len() {
                edited(keys[i], edits[i])
            } else {
                keys[i]
            },
    )
}

/// Applies the changes of the rows to the profile.
pub fn apply_row_edits(config: &mut Config, edits: &Vec<RowEdit>)
    ensures
        final(config)@ == (crate::config::ConfigModel {
            keys: edited_keys(old(config)@.keys, edits@),
            ..old(config)@
        }),
{
    let ghost before = config@;
    let mut i: usize = 0;
    while i < config.keys.len() && i < edits.len()
        invariant
            i <= config.keys@.len(),
            i <= edits@.len(),
            config.keys@.len() == before.keys.len(),
            before == old(config)@,
            forall|j: int|
                #![trigger config.keys@[j]]
                0 <= j < i ==> config.keys@[j]@ == edited_keys(before.keys, edits@)[j],
            forall|j: int|
                #![trigger config.keys@[j]]
                i <= j < config.keys@.len() ==> config.keys@[j]@ == before.keys[j],
            config.independent_loop == before.independent_loop,
            config.global_random_delay == before.global_random_delay,
            config.max_loops == before.max_loops,
            config.timing_variation_level == before.timing_variation_level,
            config.config_hotkey@ == before.config_hotkey,
        decreases config.keys@.len() - i,
    {
        let edit: RowEdit = edits[i];
        let mut key: KeyConfig = config.keys[i].clone();
        if let Some(value) = edit.base_delay {
            key.base_delay = value;
        }
        if let Some(value) = edit.random_range {
            key.random_range = value;
        }
        if let Some(value) = edit.enabled {
            key.enabled = value;
        }
        config.keys.set(i, key);
        i = i + 1;
    }
    assert(config@.keys =~= edited_keys(before.keys, edits@));
}

/// The keys, all of them enabled.
pub open spec fn all_enabled(keys: Seq<crate::config::KeyModel>) -> Seq<crate::config::KeyModel> {
    Seq::new(keys.len(), |i: int| crate::config::KeyModel { enabled: true, ..keys[i] })
}

/// The keys, each of them enabled exactly if it was not.
pub open spec fn inverted(keys: Seq<crate::config::KeyModel>) -> Seq<crate::config::KeyModel> {
    Seq::new(
        keys.len(),
        |i: int| crate::config::KeyModel { enabled: !keys[i].enabled, ..keys[i] },
    )
}

/// Enables all keys.
pub fn select_all(config: &mut Config)
    ensures
        final(config)@ == (crate::config::ConfigModel {
            keys: all_enabled(old(config)@.keys),
            ..old(config)@
        }),
{
    let ghost before = config@;
    let mut edits: Vec<RowEdit> = Vec::new();
    while edits.len() < config.keys.len()
        invariant
            edits@.len() <= config.keys@.len(),
            forall|j: int|
                0 <= j < edits@.len() ==> #[trigger] edits@[j] == (RowEdit {
                    base_delay: None,
                    random_range: None,
                    enabled: Some(true),
                }),
        decreases config.keys@.len() - edits@.len(),
    {
        edits.push(RowEdit { base_delay: None, random_range: None, enabled: Some(true) });
    }
    apply_row_edits(config, &edits);
    assert(config@.keys =~= all_enabled(before.keys));
}

/// Enables the keys that are not, and only those.
pub fn invert_selection(config: &mut Config)
    ensures
        final(config)@ == (crate::config::ConfigModel {
            keys: inverted(old(config)@.keys),
            ..old(config)@
        }),
{
    let ghost before = config@;
    let mut edits: Vec<RowEdit> = Vec::new();
    while edits.len() < config.keys.len()
        invariant
            config@ == before,
            edits@.len() <= config.keys@.len(),
            forall|j: int|
                0 <= j < edits@.len() ==> #[trigger] edits@[j] == (RowEdit {
                    base_delay: None,
                    random_range: None,
                    enabled: Some(!before.keys[j].enabled),
                }),
        decreases config.keys@.len() - edits@.len(),
    {
        let i: usize = edits.len();
        assert(before.keys[i as int] == config.keys@[i as int]@);
        edits.push(
            RowEdit {
                base_delay: None,
                random_range: None,
                enabled: Some(!config.keys[i].enabled),
            },
        );
    }
    apply_row_edits(config, &edits);
    assert(config@.keys =~= inverted(before.keys));
}

/// Inverting the selection twice does nothing.
pub proof fn lemma_invert_twice(keys: Seq<crate::config::KeyModel>)
    ensures
        inverted(inverted(keys)) == keys,
{
    assert(inverted(inverted(keys)) =~= keys);
}

/// The number of enabled keys.
pub open spec fn enabled_count_of(keys: Seq<crate::config::KeyModel>) -> nat
    decreases keys.len(),
{
    if keys.len() == 0 {
        0
    } else {
        enabled_count_of(keys.drop_last()) + if keys.last().enabled {
            1nat
        } else {
            0nat
        }
    }
}

/// What is shown above the keys.
pub fn key_table_summary(config: &Config) -> (r: String)
    ensures
        r@ == crate::text::decimal(KEY_SLOT_COUNT as nat) + " 个按键槽 / "@ + crate::text::decimal(
            enabled_count_of(config@.keys),
        ) + " 个已启用"@,
{
    let mut count: usize = 0;
    let mut i: usize = 0;
    while i < config.keys.len()
        invariant
            i <= config.keys@.len(),
            count <= i,
            count == enabled_count_of(config@.keys.take(i as int)),
        decreases config.keys@.len() - i,
    {
        assert(config@.keys.take(i + 1).drop_last() =~= config@.keys.take(i as int));
        assert(config@.keys.take(i + 1).last() == config.keys@[i as int]@);
        if config.keys[i].enabled {
            count = count + 1;
        }
        i = i + 1;
    }
    assert(config@.keys.take(i as int) =~= config@.keys);
    let head = concat(&format_decimal(KEY_SLOT_COUNT as u64), " 个按键槽 / ");
    concat3(&head, &format_decimal(count as u64), " 个已启用")
}

// ---------------------------------------------------------------------------
// The Alt key while the window is in front
// ---------------------------------------------------------------------------
/// The Alt key as the window sees it.
#[derive(Debug, Clone, Copy, PartialEq, Eq, Structural)]
pub struct AltFallback {
    pub down: bool,
    /// Nothing else was pressed since.
    pub solo: bool,
}

/// The Alt key after one look, and whether it switches the scheduler: when it is
/// let go alone, unless the hook took note of it a moment ago.
pub open spec fn alt_step(
    s: AltFallback,
    alt_down: bool,
    other_input: bool,
    hook_idle: bool,
) -> (AltFallback, bool) {
    if alt_down {
        (
            AltFallback {
                down: true,
                solo: !other_input && (!s.down || s.solo),
            },
            false,
        )
    } else if s.down {
        (AltFallback { down: false, solo: false }, s.solo && hook_idle)
    } else {
        (s, false)
    }
}

impl AltFallback {
    /// The Alt key is up.
    pub fn new() -> (r: AltFallback)
        ensures
            r == (AltFallback { down: false, solo: false }),
    {
        AltFallback { down: false, solo: false }
    }

    /// Takes a look at the Alt key and at whether there was other input.
    pub fn step(
        &mut self,
        alt_down: bool,
        other_input: bool,
        last_hook_toggle_ms: Option<u64>,
        now_ms: u64,
    ) -> (toggles: bool)
        ensures
            (*final(self), toggles) == alt_step(
                *old(self),
                alt_down,
                other_input,
                match last_hook_toggle_ms {
                    Some(last) => now_ms - last > ALT_FALLBACK_INTERVAL_MS,
                    None => true,
                },
            ),
    {
        if alt_down {
            if !self.down {
                self.down = true;
                self.solo = !other_input;
            } else if other_input {
                self.solo = false;
            }
            false
        } else if self.down {
            let was_solo: bool = self.solo;
            self.down = false;
            self.solo = false;
            was_solo && match last_hook_toggle_ms {
                Some(last) => now_ms > last && now_ms - last > ALT_FALLBACK_INTERVAL_MS,
                None => true,
            }
        } else {
            false
        }
    }
}

/// Other input while Alt is held keeps it from switching the scheduler, however
/// long it is held.
pub proof fn lemma_alt_with_other_input(s: AltFallback, other_input: bool, hook_idle: bool)
    requires
        s.down,
    ensures
        ({
            let held = alt_step(s, true, true, hook_idle).0;
            let still = alt_step(held, true, other_input, hook_idle).0;
            !alt_step(still, false, false, hook_idle).1 && !alt_step(
                held,
                false,
                false,
                hook_idle,
            ).1
        }),
{
}

// ---------------------------------------------------------------------------
// Icons, repainting and closing
// ---------------------------------------------------------------------------
/// An attempt to show a state on the taskbar.
pub struct IconAttempt {
    pub state: ShownState,
    pub at_ms: u64,
}

/// Whether the taskbar is to be updated: its state changed, and the state was not
/// tried in vain a moment ago.
pub fn icon_update_due(
    shown: &Option<ShownState>,
    attempt: &Option<IconAttempt>,
    is_running: bool,
    config_name: &str,
    now_ms: u64,
) -> (r: bool)
    ensures
        ({
            let state = crate::tray::ShownModel { is_running, config_name: config_name@ };
            r == (!crate::tray::is_shown(*shown, state) && match *attempt {
                Some(attempt) => attempt.state@ != state || now_ms - attempt.at_ms
                    >= TASKBAR_ICON_RETRY_INTERVAL_MS,
                None => true,
            })
        }),
{
    if crate::tray::shown_last(shown, is_running, config_name) {
        return false;
    }
    match attempt {
        Some(attempt) => !attempt.state.shows(is_running, config_name) || is_due(
            Some(attempt.at_ms),
            now_ms,
            TASKBAR_ICON_RETRY_INTERVAL_MS,
        ),
        None => true,
    }
}

/// The command of the button in the header.
pub fn header_command(running: bool) -> (r: AppCommand)
    ensures
        r == if running {
            AppCommand::Stop
        } else {
            AppCommand::Start
        },
{
    if running {
        AppCommand::Stop
    } else {
        AppCommand::Start
    }
}

/// What closing the window does.
#[derive(Debug, Clone, Copy, PartialEq, Eq, Structural)]
pub enum CloseAction {
    /// The window is hidden, and the program goes on in the tray.
    HideToTray,
    /// The program ends.
    Exit,
}

/// What closing the window does: without an icon in the tray, or when the user
/// asked for it there, the program ends.
pub fn close_action(has_tray: bool, exit_requested: bool) -> (r: CloseAction)
    ensures
        r == if has_tray && !exit_requested {
            CloseAction::HideToTray
        } else {
            CloseAction::Exit
        },
{
    if has_tray && !exit_requested {
        CloseAction::HideToTray
    } else {
        CloseAction::Exit
    }
}

/// How long the window can go without being painted, in milliseconds.
pub fn repaint_interval_ms(running: bool, capturing: bool) -> (r: u64)
    ensures
        r == if running || capturing {
            200u64
        } else {
            750u64
        },
{
    if running || capturing {
        200
    } else {
        750
    }
}

/// When a window that was started at login is hidden; never without an icon in
/// the tray, from which it could be shown again.
pub fn autostart_hide_at(started_by_autostart: bool, has_tray: bool, now_ms: u64) -> (r: Option<u64>)
    ensures
        r == if started_by_autostart && has_tray {
            Some(
                if now_ms + AUTOSTART_HIDE_DELAY_MS > u64::MAX {
                    u64::MAX
                } else {
                    (now_ms + AUTOSTART_HIDE_DELAY_MS) as u64
                },
            )
        } else {
            None::<u64>
        },
{
    if started_by_autostart && has_tray {
        Some(now_ms.saturating_add(AUTOSTART_HIDE_DELAY_MS))
    } else {
        None
    }
}

/// Whether a window that was started at login is hidden now.  It is hidden once.
pub fn hides_now(hide_at: &mut Option<u64>, now_ms: u64) -> (r: bool)
    ensures
        r == (*old(hide_at) matches Some(at) && now_ms >= at),
        *final(hide_at) == if r {
            None
        } else {
            *old(hide_at)
        },
{
    let due: bool = match *hide_at {
        Some(at) => now_ms >= at,
        None => false,
    };
    if due {
        *hide_at = None;
    }
    due
}

// ---------------------------------------------------------------------------
// Texts
// ---------------------------------------------------------------------------
/// The title of the window.
pub fn window_title(config_name: &str) -> (r: String)
    ensures
        r@ == "调度器 - "@ + config_name@,
{
    concat("调度器 - ", config_name)
}

/// What is shown of the bound window: its title, or its handle where it has
/// none.
pub fn bound_window_label(title: &str, hwnd: isize) -> (r: String)
    ensures
        r@ == "已绑定: "@ + if title@.len() == 0 {
            "0x"@ + crate::text::hexadecimal((hwnd as usize) as nat)
        } else {
            title@
        },
{
    if to_chars(title).len() == 0 {
        let handle = concat("0x", &format_hexadecimal(hwnd as usize as u64));
        concat("已绑定: ", &handle)
    } else {
        concat("已绑定: ", title)
    }
}

/// How a level of variation is shown.
pub fn timing_level_label(level: u8) -> (r: String)
    ensures
        r@ == if level == 0 {
            "0 - 基础"@
        } else if level == 1 {
            "1 - 标准"@
        } else {
            "2 - 拟人"@
        },
{
    match level {
        0 => "0 - 基础".to_owned(),
        1 => "1 - 标准".to_owned(),
        _ => "2 - 拟人".to_owned(),
    }
}

// ---------------------------------------------------------------------------
// The size of the window
// ---------------------------------------------------------------------------
/// Whether a bit pattern is that of a finite number above zero.
pub open spec fn positive_size(bits: u32) -> bool {
    0 < bits < INFINITE_BITS
}

/// Whether a bit pattern is that of a finite number.
pub open spec fn finite(bits: u32) -> bool {
    crate::store::magnitude(bits) < INFINITE_BITS
}

fn is_finite(bits: u32) -> (r: bool)
    ensures
        r == finite(bits),
{
    if bits >= SIGN_BIT {
        bits - SIGN_BIT < INFINITE_BITS
    } else {
        bits < INFINITE_BITS
    }
}

/// Takes note of the size of the window, if the window has a place and a size.
pub fn persist_window_size(
    preferences: &mut AppPreferences,
    x_bits: u32,
    y_bits: u32,
    width_bits: u32,
    height_bits: u32,
) -> (r: bool)
    ensures
        r == (finite(x_bits) && finite(y_bits) && positive_size(width_bits) && positive_size(
            height_bits,
        )),
        final(preferences)@ == if r {
            crate::store::sanitized_preferences(
                crate::store::PreferencesModel {
                    window_width_bits: width_bits,
                    window_height_bits: height_bits,
                    ..old(preferences)@
                },
            )
        } else {
            old(preferences)@
        },
{
    if !is_finite(x_bits) || !is_finite(y_bits) {
        return false;
    }
    if width_bits == 0 || width_bits >= INFINITE_BITS || height_bits == 0 || height_bits
        >= INFINITE_BITS {
        return false;
    }
    preferences.window_width_bits = width_bits;
    preferences.window_height_bits = height_bits;
    preferences.sanitize();
    true
}

/// The height with which the window opens: that of before, but at most that of a
/// new one, which also takes the place of a number that is none.
pub fn opening_height_bits(preferences: &AppPreferences) -> (r: u32)
    ensures
        r == if DEFAULT_HEIGHT_BITS < preferences.window_height_bits < SIGN_BIT
            || crate::store::magnitude(preferences.window_height_bits) > INFINITE_BITS {
            DEFAULT_HEIGHT_BITS
        } else {
            preferences.window_height_bits
        },
{
    let bits: u32 = preferences.window_height_bits;
    if bits < SIGN_BIT {
        if bits > DEFAULT_HEIGHT_BITS {
            DEFAULT_HEIGHT_BITS
        } else {
            bits
        }
    } else if bits - SIGN_BIT > INFINITE_BITS {
        DEFAULT_HEIGHT_BITS
    } else {
        bits
    }
}

// ---------------------------------------------------------------------------
// What holds of edits
// ---------------------------------------------------------------------------
/// Setting a key changes its code and its name, which is that of the code, or of
/// an unset key for zero; nothing else of it changes, nor any other key, nor the
/// rest of the profile.  Without a row, or with one that is not there, nothing
/// changes at all.
pub proof fn lemma_captured_key(
    config: crate::config::ConfigModel,
    row: usize,
    other: int,
    vk: u16,
)
    ensures
        ({
            let r = with_captured(config, Some(row), vk);
            &&& row < config.keys.len() ==> {
                let (before, after) = (config.keys[row as int], r.keys[row as int]);
                &&& after.vk_code == vk
                &&& vk == 0 ==> after.key_name == "未设置"@
                &&& vk != 0 ==> after.key_name == crate::hotkey::display_name(vk)
                &&& after.enabled == before.enabled
                &&& after.base_delay == before.base_delay
                &&& after.random_range == before.random_range
            }
            &&& row >= config.keys.len() ==> r == config
            &&& r.keys.len() == config.keys.len()
            &&& 0 <= other < config.keys.len() && other != row ==> r.keys[other]
                == config.keys[other]
            &&& r == (crate::config::ConfigModel { keys: r.keys, ..config })
        }),
        with_captured(config, None, vk) == config,
{
}

/// The changes of a row are taken over value by value: what was not changed
/// stays, the code and the name always do, and no row changes another.
pub proof fn lemma_row_edits(
    keys: Seq<crate::config::KeyModel>,
    edits: Seq<RowEdit>,
    row: int,
)
    ensures
        edited_keys(keys, edits).len() == keys.len(),
        0 <= row < keys.len() ==> {
            let (before, after) = (keys[row], edited_keys(keys, edits)[row]);
            &&& after.vk_code == before.vk_code
            &&& after.key_name == before.key_name
            &&& row >= edits.len() ==> after == before
            &&& row < edits.len() ==> {
                &&& edits[row].base_delay is None ==> after.base_delay == before.base_delay
                &&& edits[row].base_delay matches Some(value) ==> after.base_delay == value
                &&& edits[row].random_range is None ==> after.random_range == before.random_range
                &&& edits[row].random_range matches Some(value) ==> after.random_range == value
                &&& edits[row].enabled is None ==> after.enabled == before.enabled
                &&& edits[row].enabled matches Some(value) ==> after.enabled == value
            }
        },
{
}

proof fn lemma_enabled_counts(keys: Seq<crate::config::KeyModel>)
    ensures
        enabled_count_of(keys) <= keys.len(),
        enabled_count_of(all_enabled(keys)) == keys.len(),
        enabled_count_of(keys) + enabled_count_of(inverted(keys)) == keys.len(),
    decreases keys.len(),
{
    if keys.len() > 0 {
        lemma_enabled_counts(keys.drop_last());
        assert(all_enabled(keys).drop_last() =~= all_enabled(keys.drop_last()));
        assert(inverted(keys).drop_last() =~= inverted(keys.drop_last()));
    }
}

/// Selecting all enables every key, and inverting enables just those that were
/// not, without touching anything else; so the enabled keys before and after an
/// inversion are all keys together.
pub proof fn lemma_selection(keys: Seq<crate::config::KeyModel>, row: int)
    ensures
        all_enabled(keys).len() == keys.len() && inverted(keys).len() == keys.len(),
        0 <= row < keys.len() ==> {
            &&& all_enabled(keys)[row] == (crate::config::KeyModel { enabled: true, ..keys[row] })
            &&& inverted(keys)[row].enabled != keys[row].enabled
            &&& inverted(keys)[row] == (crate::config::KeyModel {
                enabled: inverted(keys)[row].enabled,
                ..keys[row]
            })
        },
        enabled_count_of(all_enabled(keys)) == keys.len(),
        enabled_count_of(keys) + enabled_count_of(inverted(keys)) == keys.len(),
{
    lemma_enabled_counts(keys);
}

/// Enabling one more key makes one more enabled key.
pub proof fn lemma_enabled_count(keys: Seq<crate::config::KeyModel>, key: crate::config::KeyModel)
    ensures
        enabled_count_of(keys.push(key)) == enabled_count_of(keys) + if key.enabled {
            1int
        } else {
            0int
        },
        enabled_count_of(Seq::empty()) == 0,
{
    assert(keys.push(key).drop_last() =~= keys);
}

/// Alt switches the scheduler when it is let go, if nothing else was pressed from
/// its press on, and the hook did not see it; never while it is down, never
/// twice, and never without having been down.
pub proof fn lemma_alt_alone_switches(s: AltFallback, other_input: bool, hook_idle: bool)
    ensures
        ({
            let up = AltFallback { down: false, solo: false };
            let (pressed, at_press) = alt_step(up, true, false, hook_idle);
            let (held, at_hold) = alt_step(pressed, true, false, hook_idle);
            let (released, at_release) = alt_step(held, false, other_input, hook_idle);
            &&& !at_press && !at_hold
            &&& at_release == hook_idle
            &&& released == up
            &&& !alt_step(released, false, other_input, hook_idle).1
            &&& !alt_step(alt_step(up, true, true, hook_idle).0, false, false, hook_idle).1
        }),
        !alt_step(s, true, other_input, hook_idle).1,
        !s.down ==> !alt_step(s, false, other_input, hook_idle).1,
        alt_step(s, false, other_input, false).1 == false,
{
}

/// Whether a number is finite or above zero is told by its bit pattern: no finite
/// one has all bits of the exponent set, and none above zero the sign.
pub proof fn lemma_bit_patterns(bits: u32)
    ensures
        finite(bits) <==> bits < 0x7f80_0000 || 0x8000_0000 <= bits < 0xff80_0000,
        positive_size(bits) <==> 0 < bits < 0x7f80_0000,
        positive_size(bits) ==> finite(bits),
{
}

/// A captured key goes to the row that asked for one, which then asks no more.
/// Clicking the key of a row asks for one there; clicking it again takes that back.
pub proof fn lemma_capturing(
    config: &mut Config,
    capturing: &mut Option<usize>,
    vk: u16,
    clicked: &mut Option<usize>,
    again: &mut Option<usize>,
    row: usize,
    r: (CaptureRequest, CaptureRequest),
)
    requires
        call_ensures(apply_ui_action, (config, capturing, UiAction::CapturedKey(vk)), ()),
        *old(clicked) != Some(row),
        call_ensures(click_key_button, (clicked, row), r.0),
        *old(again) == *final(clicked),
        call_ensures(click_key_button, (again, row), r.1),
    ensures
        *final(capturing) is None,
        *old(capturing) is None ==> final(config)@ == old(config)@,
        *old(capturing) is Some && (*old(capturing))->Some_0 < old(config)@.keys.len()
            ==> final(config)@.keys[(*old(capturing))->Some_0 as int].vk_code == vk,
        *final(clicked) == Some(row) && r.0 == CaptureRequest::Begin,
        *final(again) is None && r.1 == CaptureRequest::Cancel,
{
}

/// The buttons above the table and the changes of rows touch nothing but the keys.
pub proof fn lemma_table_edits(
    all: &mut Config,
    none: &mut Config,
    rows: &mut Config,
    edits: &Vec<RowEdit>,
)
    requires
        call_ensures(select_all, (all,), ()),
        call_ensures(invert_selection, (none,), ()),
        *old(none) == *final(all),
        call_ensures(apply_row_edits, (rows, edits), ()),
    ensures
        enabled_count_of(final(all)@.keys) == old(all)@.keys.len(),
        enabled_count_of(final(none)@.keys) == 0,
        final(all)@ == (crate::config::ConfigModel { keys: final(all)@.keys, ..old(all)@ }),
        final(none)@ == (crate::config::ConfigModel { keys: final(none)@.keys, ..old(all)@ }),
        final(rows)@ == (crate::config::ConfigModel { keys: final(rows)@.keys, ..old(rows)@ }),
        final(rows)@.keys.len() == old(rows)@.keys.len(),
{
    lemma_selection(old(all)@.keys, 0);
    lemma_selection(final(all)@.keys, 0);
}

/// Alt let go switches the scheduler where the hook has not done so within the
/// last 300 milliseconds.
pub proof fn lemma_hook_goes_first(
    s: &mut AltFallback,
    other_input: bool,
    last: Option<u64>,
    now: u64,
    r: bool,
)
    requires
        call_ensures(AltFallback::step, (s, false, other_input, last, now), r),
    ensures
        last is Some && now <= last->Some_0 + 300 ==> !r,
        r ==> old(s).down && old(s).solo,
        old(s).down && old(s).solo && (last is None || now > last->Some_0 + 300) && !other_input
            ==> r,
{
}

/// The icon is drawn for a state that is not shown yet; after a failure with the
/// same state half a second is waited, and with another state nothing.
pub proof fn lemma_icon_updates(
    shown: &Option<ShownState>,
    attempt: &Option<IconAttempt>,
    is_running: bool,
    config_name: &str,
    now: u64,
    r: bool,
)
    requires
        call_ensures(icon_update_due, (shown, attempt, is_running, config_name, now), r),
    ensures
        ({
            let same = |s: ShownState|
                s.is_running == is_running && s.config_name@ == config_name@;
            &&& shown is Some && same(shown->Some_0) ==> !r
            &&& shown is None && attempt is None ==> r
            &&& shown is None && attempt is Some && !same(attempt->Some_0.state) ==> r
            &&& shown is None && attempt is Some && now >= attempt->Some_0.at_ms + 500 ==> r
            &&& attempt is Some && same(attempt->Some_0.state) && now < attempt->Some_0.at_ms + 500
                ==> !r
        }),
{
}

/// Closing the window ends the program unless there is an icon to get it back
/// from; asking for the end always does.
pub proof fn lemma_closing(has_tray: bool, exit_requested: bool, r: CloseAction)
    requires
        call_ensures(close_action, (has_tray, exit_requested), r),
    ensures
        exit_requested || !has_tray ==> r == CloseAction::Exit,
        has_tray && !exit_requested ==> r == CloseAction::HideToTray,
{
}

/// A window opened at login is hidden 750 milliseconds later, once, if there is an
/// icon to get it back from; one opened otherwise stays.
pub proof fn lemma_hiding(
    started_by_autostart: bool,
    has_tray: bool,
    now: u64,
    at: Option<u64>,
    first: &mut Option<u64>,
    second: &mut Option<u64>,
    later: u64,
    r: (bool, bool),
)
    requires
        now <= u64::MAX - 750,
        call_ensures(autostart_hide_at, (started_by_autostart, has_tray, now), at),
        *old(first) == at,
        call_ensures(hides_now, (first, later), r.0),
        *old(second) == *final(first),
        call_ensures(hides_now, (second, later), r.1),
    ensures
        r.0 <==> started_by_autostart && has_tray && later >= now + 750,
        !r.1,
        !r.0 ==> *final(first) == at,
{
}

/// A bound window is told by its title, or by its handle where it has none; the
/// levels and the numbers of keys are told apart.
pub proof fn lemma_labels(
    title: &str,
    hwnd: isize,
    label: String,
    config: &Config,
    summary: String,
    level: u8,
    name: String,
)
    requires
        call_ensures(bound_window_label, (title, hwnd), label),
        call_ensures(key_table_summary, (config,), summary),
        call_ensures(timing_level_label, (level,), name),
    ensures
        title@.len() > 0 ==> crate::text::occurs_in(label@, title@),
        title@.len() == 0 ==> crate::text::occurs_in(
            label@,
            crate::text::hexadecimal((hwnd as usize) as nat),
        ),
        crate::text::begins_with(summary@, crate::text::decimal(12)),
        crate::text::occurs_in(
            summary@,
            " / "@ + crate::text::decimal(enabled_count_of(config@.keys)),
        ),
        level <= 2 ==> name@[0] as int == '0' as int + level,
{
    let none = Seq::<char>::empty();
    reveal_strlit(" 个按键槽 / ");
    reveal_strlit(" 个按键槽");
    reveal_strlit(" / ");
    reveal_strlit("0 - 基础");
    reveal_strlit("1 - 标准");
    reveal_strlit("2 - 拟人");
    let head = "已绑定: "@;
    crate::text::lemma_occurrence(head, title@, none, none);
    assert(head + title@ + none =~= head + title@);
    let handle = crate::text::hexadecimal((hwnd as usize) as nat);
    crate::text::lemma_occurrence(head + "0x"@, handle, none, none);
    assert(head + "0x"@ + handle + none =~= head + ("0x"@ + handle));
    let (slots, count) = (
        crate::text::decimal(12),
        crate::text::decimal(enabled_count_of(config@.keys)),
    );
    let tail = " 个已启用"@;
    crate::text::lemma_occurrence(none, slots, " 个按键槽 / "@ + count + tail, none);
    assert(summary@ =~= slots + (" 个按键槽 / "@ + count + tail));
    assert(none + slots + (" 个按键槽 / "@ + count + tail) =~= summary@);
    crate::text::lemma_occurrence(slots + " 个按键槽"@, " / "@ + count, tail, none);
    assert(slots + " 个按键槽"@ + (" / "@ + count) + tail =~= summary@);
}

/// The size of the window is kept where it is one, as far as it is in range, and
/// with it nothing else is changed; an odd one is not kept.
pub proof fn lemma_keeping_size(
    preferences: &mut AppPreferences,
    x: u32,
    y: u32,
    width: u32,
    height: u32,
    r: bool,
)
    requires
        call_ensures(persist_window_size, (preferences, x, y, width, height), r),
    ensures
        !r ==> final(preferences)@ == old(preferences)@,
        width == 0 || width >= 0x7f80_0000 || height == 0 || height >= 0x7f80_0000 ==> !r,
        x == 0x7f80_0000 || y == 0x7f80_0000 ==> !r,
        x < 0x7f80_0000 && y < 0x7f80_0000 && 0 < width < 0x7f80_0000 && 0 < height < 0x7f80_0000
            ==> r,
        r && 0x444d_0000 <= width <= 0x45f0_0000 ==> final(preferences)@.window_width_bits == width,
        r && 0x440c_0000 <= height <= 0x4587_0000 ==> final(preferences)@.window_height_bits
            == height,
{
    lemma_bit_patterns(x);
    lemma_bit_patterns(y);
    lemma_bit_patterns(width);
    lemma_bit_patterns(height);
}

} // verus!
