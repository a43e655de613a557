//! Profiles: which keys are pressed, how often and with what timing.
use crate::text::{
    concat3, format_decimal, from_chars, is_control, same_text, slice_chars, take_chars,
    to_ascii_uppercase, to_chars, trim_and_take, trim_chars,
};
use vstd::prelude::*;

verus! {

/// The number of keys in a profile.
pub const KEY_SLOT_COUNT: usize = 12;

/// The shortest and the longest interval of a key, in milliseconds.
pub const MIN_DELAY_MS: u32 = 20;

pub const MAX_DELAY_MS: u32 = 3_600_000;

/// The greatest number of rounds that a profile can ask for.
pub const MAX_LOOPS: i32 = 1_000_000;

/// The name of the profile that always exists.
pub const DEFAULT_CONFIG_NAME: &'static str = "默认";

/// The shortcut that switches to the next profile.
pub const DEFAULT_CYCLE_HOTKEY: &'static str = "Ctrl+Z";

/// The name of a key that is not set.
pub const UNSET_KEY_NAME: &'static str = "未设置";

// ---------------------------------------------------------------------------
// Keys
// ---------------------------------------------------------------------------
/// One key of a profile.
#[derive(Debug, PartialEq, Eq)]
pub struct KeyConfig {
    pub enabled: bool,
    pub vk_code: u16,
    pub key_name: String,
    pub base_delay: u32,
    pub random_range: u32,
}

/// The mathematical content of a [`KeyConfig`].
#[verifier::ext_equal]
pub struct KeyModel {
    pub enabled: bool,
    pub vk_code: u16,
    pub key_name: Seq<char>,
    pub base_delay: u32,
    pub random_range: u32,
}

impl View for KeyConfig {
    type V = KeyModel;

    open spec fn view(&self) -> KeyModel {
        KeyModel {
            enabled: self.enabled,
            vk_code: self.vk_code,
            key_name: self.key_name@,
            base_delay: self.base_delay,
            random_range: self.random_range,
        }
    }
}

impl Clone for KeyConfig {
    fn clone(&self) -> (r: KeyConfig)
        ensures
            r@ == self@,
    {
        KeyConfig {
            enabled: self.enabled,
            vk_code: self.vk_code,
            key_name: self.key_name.clone(),
            base_delay: self.base_delay,
            random_range: self.random_range,
        }
    }
}

/// A key that is neither set nor enabled.
pub open spec fn unset_key() -> KeyModel {
    KeyModel {
        enabled: false,
        vk_code: 0,
        key_name: UNSET_KEY_NAME@,
        base_delay: 1000,
        random_range: 100,
    }
}

impl Default for KeyConfig {
    fn default() -> (r: KeyConfig)
        ensures
            r@ == unset_key(),
    {
        KeyConfig {
            enabled: false,
            vk_code: 0,
            key_name: UNSET_KEY_NAME.to_owned(),
            base_delay: 1000,
            random_range: 100,
        }
    }
}

/// The virtual key codes that can be pressed.
pub open spec fn pressable(vk: u16) -> bool {
    1 <= vk <= 254
}

/// `value` moved into the range from `low` to `high`.
pub open spec fn within(value: int, low: int, high: int) -> int {
    if value < low {
        low
    } else if value > high {
        high
    } else {
        value
    }
}

/// A key with its values brought into range.
pub open spec fn sanitized_key(key: KeyModel) -> KeyModel {
    let name = crate::text::prefix(crate::text::trimmed(key.key_name), 24);
    KeyModel {
        enabled: key.enabled,
        vk_code: if pressable(key.vk_code) {
            key.vk_code
        } else {
            0
        },
        key_name: if name.len() == 0 {
            UNSET_KEY_NAME@
        } else {
            name
        },
        base_delay: within(key.base_delay as int, MIN_DELAY_MS as int, MAX_DELAY_MS as int) as u32,
        random_range: within(key.random_range as int, 0, MAX_DELAY_MS as int) as u32,
    }
}

impl KeyConfig {
    /// Brings the values of the key into range.
    pub fn sanitize(&mut self)
        ensures
            final(self)@ == sanitized_key(old(self)@),
    {
        let name = trim_and_take(&self.key_name, 24);
        let chars = to_chars(&name);
        if chars.len() == 0 {
            self.key_name = UNSET_KEY_NAME.to_owned();
        } else {
            self.key_name = name;
        }
        if self.vk_code < 1 || self.vk_code > 254 {
            self.vk_code = 0;
        }
        if self.base_delay < MIN_DELAY_MS {
            self.base_delay = MIN_DELAY_MS;
        } else if self.base_delay > MAX_DELAY_MS {
            self.base_delay = MAX_DELAY_MS;
        }
        if self.random_range > MAX_DELAY_MS {
            self.random_range = MAX_DELAY_MS;
        }
    }
}

// ---------------------------------------------------------------------------
// Profiles
// ---------------------------------------------------------------------------
/// A profile.
#[derive(Debug, PartialEq, Eq)]
pub struct Config {
    pub keys: Vec<KeyConfig>,
    /// Whether each key runs on its own, or all in the order of the list.
    pub independent_loop: bool,
    /// A random range that is added to that of every key.
    pub global_random_delay: u32,
    /// The number of rounds; negative for no limit.
    pub max_loops: i32,
    pub timing_variation_level: u8,
    pub config_hotkey: String,
}

/// The mathematical content of a [`Config`].
#[verifier::ext_equal]
pub struct ConfigModel {
    pub keys: Seq<KeyModel>,
    pub independent_loop: bool,
    pub global_random_delay: u32,
    pub max_loops: i32,
    pub timing_variation_level: u8,
    pub config_hotkey: Seq<char>,
}

/// The keys of a list.
pub open spec fn key_models(keys: Seq<KeyConfig>) -> Seq<KeyModel> {
    Seq::new(keys.len(), |i: int| keys[i]@)
}

impl View for Config {
    type V = ConfigModel;

    open spec fn view(&self) -> ConfigModel {
        ConfigModel {
            keys: key_models(self.keys@),
            independent_loop: self.independent_loop,
            global_random_delay: self.global_random_delay,
            max_loops: self.max_loops,
            timing_variation_level: self.timing_variation_level,
            config_hotkey: self.config_hotkey@,
        }
    }
}

impl Clone for Config {
    fn clone(&self) -> (r: Config)
        ensures
            r@ == self@,
    {
        let mut keys: Vec<KeyConfig> = Vec::new();
        let mut i: usize = 0;
        while i < self.keys.len()
            invariant
                i <= self.keys@.len(),
                key_models(keys@) == key_models(self.keys@).take(i as int),
            decreases self.keys@.len() - i,
        {
            keys.push(self.keys[i].clone());
            i = i + 1;
            assert(key_models(keys@) =~= key_models(self.keys@).take(i - 1).push(
                self.keys@[i - 1]@,
            ));
            assert(key_models(self.keys@).take(i as int) =~= key_models(self.keys@).take(
                i - 1,
            ).push(self.keys@[i - 1]@));
        }
        assert(key_models(self.keys@).take(i as int) =~= key_models(self.keys@));
        Config {
            keys,
            independent_loop: self.independent_loop,
            global_random_delay: self.global_random_delay,
            max_loops: self.max_loops,
            timing_variation_level: self.timing_variation_level,
            config_hotkey: self.config_hotkey.clone(),
        }
    }
}

/// Whether two keys are the same.
pub fn same_key(a: &KeyConfig, b: &KeyConfig) -> (r: bool)
    ensures
        r == (a@ == b@),
{
    a.enabled == b.enabled && a.vk_code == b.vk_code && a.base_delay == b.base_delay
        && a.random_range == b.random_range && same_text(&a.key_name, &b.key_name)
}

/// Whether two profiles are the same.
pub fn same_config(a: &Config, b: &Config) -> (r: bool)
    ensures
        r == (a@ == b@),
{
    if a.independent_loop != b.independent_loop || a.global_random_delay != b.global_random_delay
        || a.max_loops != b.max_loops || a.timing_variation_level != b.timing_variation_level
        || !same_text(&a.config_hotkey, &b.config_hotkey) {
        return false;
    }
    if a.keys.len() != b.keys.len() {
        assert(a@.keys.len() != b@.keys.len());
        return false;
    }
    let mut i: usize = 0;
    while i < a.keys.len()
        invariant
            i <= a.keys@.len(),
            a.keys@.len() == b.keys@.len(),
            forall|j: int| #![trigger a.keys@[j]] 0 <= j < i ==> a.keys@[j]@ == b.keys@[j]@,
        decreases a.keys@.len() - i,
    {
        if !same_key(&a.keys[i], &b.keys[i]) {
            assert(a@.keys[i as int] != b@.keys[i as int]);
            return false;
        }
        i = i + 1;
    }
    assert(a@.keys =~= b@.keys);
    true
}

/// A new profile: the first four keys are enabled, and none is set.
pub open spec fn default_config() -> ConfigModel {
    ConfigModel {
        keys: Seq::new(
            KEY_SLOT_COUNT as nat,
            |i: int| KeyModel { enabled: i < 4, ..unset_key() },
        ),
        independent_loop: true,
        global_random_delay: 100,
        max_loops: -1i32,
        timing_variation_level: 2,
        config_hotkey: Seq::empty(),
    }
}

impl Default for Config {
    fn default() -> (r: Config)
        ensures
            r@ == default_config(),
    {
        let mut keys: Vec<KeyConfig> = Vec::new();
        while keys.len() < KEY_SLOT_COUNT
            invariant
                keys@.len() <= KEY_SLOT_COUNT,
                key_models(keys@) == default_config().keys.take(keys@.len() as int),
            decreases KEY_SLOT_COUNT - keys@.len(),
        {
            let mut key = KeyConfig::default();
            key.enabled = keys.len() < 4;
            let ghost before = keys@;
            keys.push(key);
            assert(key_models(keys@) =~= key_models(before).push(key@));
            assert(default_config().keys.take(keys@.len() as int)
                =~= default_config().keys.take(before.len() as int).push(key@));
        }
        assert(default_config().keys.take(KEY_SLOT_COUNT as int) =~= default_config().keys);
        Config {
            keys,
            independent_loop: true,
            global_random_delay: 100,
            max_loops: -1,
            timing_variation_level: 2,
            config_hotkey: String::new(),
        }
    }
}

/// The keys of a profile, cut or filled up to [`KEY_SLOT_COUNT`] and brought
/// into range.
pub open spec fn sanitized_keys(keys: Seq<KeyModel>) -> Seq<KeyModel> {
    Seq::new(
        KEY_SLOT_COUNT as nat,
        |i: int|
            if i < keys.len() {
                sanitized_key(keys[i])
            } else {
                sanitized_key(unset_key())
            },
    )
}

/// A profile with its values brought into range.
pub open spec fn sanitized(config: ConfigModel) -> ConfigModel {
    ConfigModel {
        keys: sanitized_keys(config.keys),
        independent_loop: config.independent_loop,
        global_random_delay: within(config.global_random_delay as int, 0, MAX_DELAY_MS as int) as u32,
        max_loops: within(config.max_loops as int, -1, MAX_LOOPS as int) as i32,
        timing_variation_level: within(config.timing_variation_level as int, 0, 2) as u8,
        config_hotkey: crate::text::prefix(crate::text::trimmed(config.config_hotkey), 64),
    }
}

impl Config {
    /// Brings the values of the profile into range.
    pub fn sanitize(&mut self)
        ensures
            final(self)@ == sanitized(old(self)@),
    {
        let ghost before = key_models(self.keys@);
        self.keys.truncate(KEY_SLOT_COUNT);
        while self.keys.len() < KEY_SLOT_COUNT
            invariant
                self.keys@.len() <= KEY_SLOT_COUNT,
                self.keys@.len() >= before.len() || self.keys@.len() == KEY_SLOT_COUNT,
                forall|i: int|
                    #![trigger self.keys@[i]]
                    0 <= i < self.keys@.len() ==> self.keys@[i]@ == if i < before.len() {
                        before[i]
                    } else {
                        unset_key()
                    },
                self.independent_loop == old(self).independent_loop,
                self.global_random_delay == old(self).global_random_delay,
                self.max_loops == old(self).max_loops,
                self.timing_variation_level == old(self).timing_variation_level,
                self.config_hotkey == old(self).config_hotkey,
            decreases KEY_SLOT_COUNT - self.keys@.len(),
        {
            self.keys.push(KeyConfig::default());
        }
        let mut i: usize = 0;
        while i < KEY_SLOT_COUNT
            invariant
                i <= KEY_SLOT_COUNT,
                self.keys@.len() == KEY_SLOT_COUNT,
                forall|j: int|
                    #![trigger self.keys@[j]]
                    0 <= j < i ==> self.keys@[j]@ == sanitized_keys(before)[j],
                forall|j: int|
                    #![trigger self.keys@[j]]
                    i <= j < self.keys@.len() ==> self.keys@[j]@ == if j < before.len() {
                        before[j]
                    } else {
                        unset_key()
                    },
                self.independent_loop == old(self).independent_loop,
                self.global_random_delay == old(self).global_random_delay,
                self.max_loops == old(self).max_loops,
                self.timing_variation_level == old(self).timing_variation_level,
                self.config_hotkey == old(self).config_hotkey,
            decreases KEY_SLOT_COUNT - i,
        {
            let mut key = self.keys[i].clone();
            key.sanitize();
            self.keys.set(i, key);
            i = i + 1;
        }
        assert(key_models(self.keys@) =~= sanitized_keys(before));
        if self.global_random_delay > MAX_DELAY_MS {
            self.global_random_delay = MAX_DELAY_MS;
        }
        if self.max_loops < -1 {
            self.max_loops = -1;
        } else if self.max_loops > MAX_LOOPS {
            self.max_loops = MAX_LOOPS;
        }
        if self.timing_variation_level > 2 {
            self.timing_variation_level = 2;
        }
        self.config_hotkey = trim_and_take(&self.config_hotkey, 64);
    }
}

// ---------------------------------------------------------------------------
// Validation
// ---------------------------------------------------------------------------
/// Whether a key takes part in a run.
pub open spec fn runnable(key: KeyModel) -> bool {
    key.enabled && pressable(key.vk_code)
}

/// Whether a key is enabled, yet not set.
pub open spec fn enabled_but_unset(key: KeyModel) -> bool {
    key.enabled && !pressable(key.vk_code)
}

/// The first row from `from` on that is enabled, yet not set.
pub open spec fn unset_row(keys: Seq<KeyModel>, from: nat) -> Option<nat>
    decreases keys.len() - from,
{
    if from >= keys.len() {
        None
    } else if enabled_but_unset(keys[from as int]) {
        Some(from)
    } else {
        unset_row(keys, from + 1)
    }
}

/// What keeps a profile from being run.
pub open spec fn validation_message(config: ConfigModel) -> Option<Seq<char>> {
    if !(exists|i: int| 0 <= i < config.keys.len() && runnable(#[trigger] config.keys[i])) {
        Some("请至少设置并启用一个按键"@)
    } else {
        match unset_row(config.keys, 0) {
            Some(row) => Some(
                "第 "@ + crate::text::decimal(row + 1) + " 行已启用，但尚未设置按键"@,
            ),
            None => None,
        }
    }
}

/// The text of an optional string.
pub open spec fn text_of(s: Option<String>) -> Option<Seq<char>> {
    match s {
        Some(text) => Some(text@),
        None => None,
    }
}

impl Config {
    /// What keeps the profile from being run: no key that is enabled and set,
    /// or one that is enabled and not set.
    pub fn validation_error(&self) -> (r: Option<String>)
        ensures
            text_of(r) == validation_message(self@),
    {
        let mut any: bool = false;
        let mut i: usize = 0;
        while i < self.keys.len()
            invariant
                i <= self.keys@.len(),
                any == exists|j: int| 0 <= j < i && runnable(#[trigger] self@.keys[j]),
            decreases self.keys@.len() - i,
        {
            assert(self@.keys[i as int] == self.keys@[i as int]@);
            if self.keys[i].enabled && self.keys[i].vk_code >= 1 && self.keys[i].vk_code <= 254 {
                any = true;
            }
            i = i + 1;
        }
        if !any {
            return Some("请至少设置并启用一个按键".to_owned());
        }
        let mut row: usize = 0;
        while row < self.keys.len()
            invariant
                row <= self.keys@.len(),
                unset_row(self@.keys, 0) == unset_row(self@.keys, row as nat),
                exists|j: int| 0 <= j < self@.keys.len() && runnable(#[trigger] self@.keys[j]),
            decreases self.keys@.len() - row,
        {
            assert(self@.keys[row as int] == self.keys@[row as int]@);
            if self.keys[row].enabled && (self.keys[row].vk_code < 1 || self.keys[row].vk_code
                > 254) {
                let number = format_decimal(row as u64 + 1);
                return Some(concat3("第 ", &number, " 行已启用，但尚未设置按键"));
            }
            row = row + 1;
        }
        None
    }
}

// ---------------------------------------------------------------------------
// What holds of every profile that was brought into range
// ---------------------------------------------------------------------------
/// The values of a profile are in range.
pub open spec fn in_range(config: ConfigModel) -> bool {
    &&& config.keys.len() == KEY_SLOT_COUNT
    &&& forall|i: int| 0 <= i < config.keys.len() ==> key_in_range(#[trigger] config.keys[i])
    &&& config.global_random_delay <= MAX_DELAY_MS
    &&& -1 <= config.max_loops <= MAX_LOOPS
    &&& config.timing_variation_level <= 2
    &&& config.config_hotkey.len() <= 64
}

/// The values of a key are in range.
pub open spec fn key_in_range(key: KeyModel) -> bool {
    &&& key.vk_code == 0 || pressable(key.vk_code)
    &&& 0 < key.key_name.len() <= 24
    &&& MIN_DELAY_MS <= key.base_delay <= MAX_DELAY_MS
    &&& key.random_range <= MAX_DELAY_MS
}

/// Bringing a profile into range gives [`KEY_SLOT_COUNT`] keys, all values in
/// range, and the same rows enabled as before.
pub proof fn lemma_sanitize_in_range(config: ConfigModel)
    ensures
        in_range(sanitized(config)),
        forall|i: int|
            #![trigger sanitized(config).keys[i]]
            0 <= i < KEY_SLOT_COUNT ==> sanitized(config).keys[i].enabled == (i
                < config.keys.len() && config.keys[i].enabled),
{
    reveal_strlit("未设置");
}

/// Neither end of a text is white space.
pub open spec fn tidy(s: Seq<char>) -> bool {
    s.len() > 0 ==> !crate::text::whitespace(s[0]) && !crate::text::whitespace(s.last())
}

proof fn lemma_tidy_stays(s: Seq<char>, n: int)
    requires
        tidy(s),
        s.len() <= n,
    ensures
        crate::text::prefix(crate::text::trimmed(s), n) == s,
{
    assert(crate::text::trim_start(s) == s);
    assert(crate::text::trim_end(s) == s);
}

/// A profile that is in range, with names that neither begin nor end with white
/// space, stays as it is.
pub proof fn lemma_sanitize_keeps_in_range(config: ConfigModel)
    requires
        in_range(config),
        tidy(config.config_hotkey),
        forall|i: int| 0 <= i < config.keys.len() ==> tidy((#[trigger] config.keys[i]).key_name),
    ensures
        sanitized(config) == config,
{
    lemma_tidy_stays(config.config_hotkey, 64);
    assert forall|i: int| 0 <= i < config.keys.len() implies sanitized_key(
        #[trigger] config.keys[i],
    ) == config.keys[i] by {
        lemma_tidy_stays(config.keys[i].key_name, 24);
    }
    assert(sanitized(config).keys =~= config.keys);
}

/// Bringing a profile into range twice does the same as once, as long as no
/// name was cut off right after white space.
pub proof fn lemma_sanitize_idempotent(config: ConfigModel)
    requires
        tidy(sanitized(config).config_hotkey),
        forall|i: int|
            0 <= i < KEY_SLOT_COUNT ==> tidy((#[trigger] sanitized(config).keys[i]).key_name),
    ensures
        sanitized(sanitized(config)) == sanitized(config),
{
    lemma_sanitize_in_range(config);
    lemma_sanitize_keeps_in_range(sanitized(config));
}

/// A new profile is in range, and it cannot be run before a key is set.
pub proof fn lemma_default_config()
    ensures
        sanitized(default_config()) == default_config(),
        validation_message(default_config()) is Some,
{
    reveal_strlit("未设置");
    lemma_sanitize_keeps_in_range(default_config());
}

/// A profile without a message can be run: a key is enabled and set, and every
/// enabled key is set.
pub proof fn lemma_valid_profile_can_run(config: ConfigModel)
    ensures
        validation_message(config) is None <==> {
            &&& exists|i: int| 0 <= i < config.keys.len() && runnable(#[trigger] config.keys[i])
            &&& forall|i: int|
                0 <= i < config.keys.len() ==> !enabled_but_unset(#[trigger] config.keys[i])
        },
{
    lemma_unset_row(config.keys, 0);
}

proof fn lemma_unset_row(keys: Seq<KeyModel>, from: nat)
    ensures
        unset_row(keys, from) is None <==> forall|i: int|
            from <= i < keys.len() ==> !enabled_but_unset(#[trigger] keys[i]),
    decreases keys.len() - from,
{
    if from < keys.len() && !enabled_but_unset(keys[from as int]) {
        lemma_unset_row(keys, from + 1);
    }
}

/// A key keeps what is in range, and takes the nearest value that is for what is
/// not: a code that is none counts as unset, an interval lies between 20
/// milliseconds and an hour, and a range is at most an hour.  Whether it is
/// enabled does not change, and its name is at most the first 24 characters of
/// what was given, or that of an unset key where nothing is left of it.
pub proof fn lemma_sanitized_key(key: KeyModel)
    ensures
        ({
            let r = sanitized_key(key);
            let name = crate::text::trimmed(key.key_name);
            &&& r.enabled == key.enabled
            &&& 1 <= key.vk_code <= 254 ==> r.vk_code == key.vk_code
            &&& key.vk_code > 254 ==> r.vk_code == 0
            &&& key.vk_code == 0 ==> r.vk_code == 0
            &&& 20 <= key.base_delay <= 3_600_000 ==> r.base_delay == key.base_delay
            &&& key.base_delay < 20 ==> r.base_delay == 20
            &&& key.base_delay > 3_600_000 ==> r.base_delay == 3_600_000
            &&& key.random_range <= 3_600_000 ==> r.random_range == key.random_range
            &&& key.random_range > 3_600_000 ==> r.random_range == 3_600_000
            &&& 0 < name.len() <= 24 ==> r.key_name == name
            &&& name.len() > 24 ==> r.key_name == name.take(24)
            &&& name.len() == 0 ==> r.key_name == "未设置"@
        }),
{
}

/// A profile keeps its keys in their rows, up to twelve, and those that are
/// missing are unset; every other value that is in range stays, and what is not
/// takes the nearest one.
pub proof fn lemma_sanitized_profile(config: ConfigModel, row: int)
    ensures
        ({
            let r = sanitized(config);
            let shortcut = crate::text::trimmed(config.config_hotkey);
            &&& r.keys.len() == 12
            &&& 0 <= row < 12 && row < config.keys.len() ==> r.keys[row] == sanitized_key(
                config.keys[row],
            )
            &&& config.keys.len() <= row < 12 ==> r.keys[row] == unset_key()
            &&& r.independent_loop == config.independent_loop
            &&& config.global_random_delay <= 3_600_000 ==> r.global_random_delay
                == config.global_random_delay
            &&& config.global_random_delay > 3_600_000 ==> r.global_random_delay == 3_600_000
            &&& -1 <= config.max_loops <= 1_000_000 ==> r.max_loops == config.max_loops
            &&& config.max_loops < -1 ==> r.max_loops == -1
            &&& config.max_loops > 1_000_000 ==> r.max_loops == 1_000_000
            &&& config.timing_variation_level <= 2 ==> r.timing_variation_level
                == config.timing_variation_level
            &&& config.timing_variation_level > 2 ==> r.timing_variation_level == 2
            &&& shortcut.len() <= 64 ==> r.config_hotkey == shortcut
            &&& shortcut.len() > 64 ==> r.config_hotkey == shortcut.take(64)
        }),
{
    reveal_strlit("未设置");
    lemma_tidy_stays(UNSET_KEY_NAME@, 24);
}

/// A new profile has twelve keys of which the first four are enabled, none of
/// them set, and runs them on their own without a limit.
pub proof fn lemma_new_profile(row: int)
    ensures
        default_config().keys.len() == 12,
        0 <= row < 12 ==> {
            let key = default_config().keys[row];
            &&& key.enabled <==> row < 4
            &&& key.vk_code == 0
            &&& key.base_delay == 1000
            &&& key.random_range == 100
            &&& key.key_name == "未设置"@
        },
        default_config().independent_loop,
        default_config().max_loops == -1,
        default_config().global_random_delay == 100,
        default_config().timing_variation_level == 2,
        default_config().config_hotkey.len() == 0,
        !unset_key().enabled,
        unset_key().vk_code == 0,
        unset_key().base_delay == 1000,
        unset_key().random_range == 100,
{
}

proof fn lemma_first_unset_row(keys: Seq<KeyModel>, from: nat)
    ensures
        unset_row(keys, from) matches Some(row) ==> {
            &&& from <= row < keys.len()
            &&& keys[row as int].enabled
            &&& !(1 <= keys[row as int].vk_code <= 254)
            &&& forall|i: int|
                from <= i < row && (#[trigger] keys[i]).enabled ==> 1 <= keys[i].vk_code <= 254
        },
    decreases keys.len() - from,
{
    if from < keys.len() && !enabled_but_unset(keys[from as int]) {
        lemma_first_unset_row(keys, from + 1);
    }
}

/// What is wrong with a profile is told by the first thing that is: that no key
/// can be pressed, or the number, counted from one, of the first row that is
/// enabled and not set.
pub proof fn lemma_validation_names_the_row(config: ConfigModel)
    ensures
        (forall|i: int|
            0 <= i < config.keys.len() && (#[trigger] config.keys[i]).enabled ==> !(1
                <= config.keys[i].vk_code <= 254)) ==> validation_message(config) == Some(
            "请至少设置并启用一个按键"@,
        ),
        forall|row: int|
            0 <= row < config.keys.len() && (#[trigger] config.keys[row]).enabled && !(1
                <= config.keys[row].vk_code <= 254) && (exists|i: int|
                0 <= i < config.keys.len() && (#[trigger] config.keys[i]).enabled && 1
                    <= config.keys[i].vk_code <= 254) && (forall|i: int|
                0 <= i < row && (#[trigger] config.keys[i]).enabled ==> 1 <= config.keys[i].vk_code
                    <= 254) ==> validation_message(config) == Some(
                "第 "@ + crate::text::decimal((row + 1) as nat) + " 行已启用，但尚未设置按键"@,
            ),
{
    let keys = config.keys;
    lemma_first_unset_row(keys, 0);
    lemma_unset_row(keys, 0);
    if forall|i: int|
        0 <= i < keys.len() && (#[trigger] keys[i]).enabled ==> !(1 <= keys[i].vk_code <= 254) {
        assert forall|i: int| 0 <= i < keys.len() implies !runnable(#[trigger] keys[i]) by {}
    }
    assert forall|row: int|
        0 <= row < keys.len() && (#[trigger] keys[row]).enabled && !(1 <= keys[row].vk_code <= 254)
            && (exists|i: int|
            0 <= i < keys.len() && (#[trigger] keys[i]).enabled && 1 <= keys[i].vk_code <= 254)
            && (forall|i: int|
            0 <= i < row && (#[trigger] keys[i]).enabled ==> 1 <= keys[i].vk_code
                <= 254) implies validation_message(config) == Some(
        "第 "@ + crate::text::decimal((row + 1) as nat) + " 行已启用，但尚未设置按键"@,
    ) by {
        let i = choose|i: int|
            0 <= i < keys.len() && (#[trigger] keys[i]).enabled && 1 <= keys[i].vk_code <= 254;
        assert(runnable(keys[i]));
        assert(enabled_but_unset(keys[row]));
        assert(unset_row(keys, 0) is Some);
        let found = unset_row(keys, 0)->Some_0;
        assert(!(found < row)) by {
            if found < row {
                assert(keys[found as int].enabled);
            }
        }
        assert(!(row < found));
    }
}

// ---------------------------------------------------------------------------
// Names of profiles
// ---------------------------------------------------------------------------
/// The characters that a file name cannot hold.
pub open spec fn forbidden(c: char) -> bool {
    ||| crate::text::control(c)
    ||| c == '<'
    ||| c == '>'
    ||| c == ':'
    ||| c == '"'
    ||| c == '/'
    ||| c == '\\'
    ||| c == '|'
    ||| c == '?'
    ||| c == '*'
}

fn is_forbidden(c: char) -> (r: bool)
    ensures
        r == forbidden(c),
{
    is_control(c) || c == '<' || c == '>' || c == ':' || c == '"' || c == '/' || c == '\\' || c
        == '|' || c == '?' || c == '*'
}

/// A text with an underscore for every character that a file name cannot hold.
pub open spec fn masked(s: Seq<char>) -> Seq<char> {
    Seq::new(
        s.len(),
        |i: int|
            if forbidden(s[i]) {
                '_'
            } else {
                s[i]
            },
    )
}

/// A text without the spaces and dots at its end.
pub open spec fn without_tail(s: Seq<char>) -> Seq<char>
    decreases s.len(),
{
    if s.len() > 0 && (s.last() == ' ' || s.last() == '.') {
        without_tail(s.drop_last())
    } else {
        s
    }
}

/// The part of a file name that stands before its first dot.
pub open spec fn device_part(s: Seq<char>) -> Seq<char>
    decreases s.len(),
{
    if s.len() == 0 || s[0] == '.' {
        Seq::empty()
    } else {
        seq![s[0]] + device_part(s.subrange(1, s.len() as int))
    }
}

/// The names that Windows keeps for devices, in capitals.
pub open spec fn reserved_device(s: Seq<char>) -> bool {
    ||| s == seq!['C', 'O', 'N']
    ||| s == seq!['P', 'R', 'N']
    ||| s == seq!['A', 'U', 'X']
    ||| s == seq!['N', 'U', 'L']
    ||| s.len() == 4 && (s.take(3) == seq!['C', 'O', 'M'] || s.take(3) == seq!['L', 'P', 'T'])
        && '1' <= s[3] <= '9'
}

/// Whether Windows takes a file of this name for a device.
pub open spec fn names_device(s: Seq<char>) -> bool {
    reserved_device(crate::text::uppercased(device_part(s)))
}

/// The name under which a profile is kept.
pub open spec fn sanitized_name(name: Seq<char>) -> Seq<char> {
    let body = without_tail(
        masked(crate::text::prefix(crate::text::trimmed(name), 64)),
    );
    if body.len() == 0 {
        DEFAULT_CONFIG_NAME@
    } else if names_device(body) {
        seq!['_'] + body
    } else {
        body
    }
}

fn strip_tail(s: &Vec<char>) -> (out: Vec<char>)
    ensures
        out@ == without_tail(s@),
{
    let mut to: usize = s.len();
    assert(s@.subrange(0, s@.len() as int) =~= s@);
    while to > 0 && (s[to - 1] == ' ' || s[to - 1] == '.')
        invariant
            to <= s@.len(),
            without_tail(s@) == without_tail(s@.subrange(0, to as int)),
        decreases to,
    {
        assert(s@.subrange(0, to as int).drop_last() =~= s@.subrange(0, to - 1));
        to = to - 1;
    }
    slice_chars(s, 0, to)
}

proof fn lemma_device_part(s: Seq<char>, n: int)
    requires
        0 <= n <= s.len(),
        forall|i: int| 0 <= i < n ==> s[i] != '.',
        n == s.len() || s[n] == '.',
    ensures
        device_part(s) == s.take(n),
    decreases n,
{
    if n > 0 {
        let rest = s.subrange(1, s.len() as int);
        assert forall|i: int| 0 <= i < n - 1 implies rest[i] != '.' by {
            assert(s[i + 1] != '.');
        }
        lemma_device_part(rest, n - 1);
        assert(seq![s[0]] + rest.take(n - 1) =~= s.take(n));
    } else {
        assert(s.take(0) =~= Seq::empty());
    }
}

fn is_device(s: &Vec<char>) -> (r: bool)
    ensures
        r == names_device(s@),
{
    let mut n: usize = 0;
    while n < s.len() && s[n] != '.'
        invariant
            n <= s@.len(),
            forall|i: int| 0 <= i < n ==> s@[i] != '.',
        decreases s@.len() - n,
    {
        n = n + 1;
    }
    proof {
        lemma_device_part(s@, n as int);
    }
    let head = slice_chars(s, 0, n);
    assert(head@ =~= s@.take(n as int));
    let d = to_ascii_uppercase(&head);
    if d.len() == 3 {
        let r = (d[0] == 'C' && d[1] == 'O' && d[2] == 'N') || (d[0] == 'P' && d[1] == 'R' && d[2]
            == 'N') || (d[0] == 'A' && d[1] == 'U' && d[2] == 'X') || (d[0] == 'N' && d[1] == 'U'
            && d[2] == 'L');
        assert((d@ == seq!['C', 'O', 'N']) == (d@[0] == 'C' && d@[1] == 'O' && d@[2] == 'N')) by {
            if d@[0] == 'C' && d@[1] == 'O' && d@[2] == 'N' {
                assert(d@ =~= seq!['C', 'O', 'N']);
            }
        }
        assert((d@ == seq!['P', 'R', 'N']) == (d@[0] == 'P' && d@[1] == 'R' && d@[2] == 'N')) by {
            if d@[0] == 'P' && d@[1] == 'R' && d@[2] == 'N' {
                assert(d@ =~= seq!['P', 'R', 'N']);
            }
        }
        assert((d@ == seq!['A', 'U', 'X']) == (d@[0] == 'A' && d@[1] == 'U' && d@[2] == 'X')) by {
            if d@[0] == 'A' && d@[1] == 'U' && d@[2] == 'X' {
                assert(d@ =~= seq!['A', 'U', 'X']);
            }
        }
        assert((d@ == seq!['N', 'U', 'L']) == (d@[0] == 'N' && d@[1] == 'U' && d@[2] == 'L')) by {
            if d@[0] == 'N' && d@[1] == 'U' && d@[2] == 'L' {
                assert(d@ =~= seq!['N', 'U', 'L']);
            }
        }
        r
    } else if d.len() == 4 {
        let r = ((d[0] == 'C' && d[1] == 'O' && d[2] == 'M') || (d[0] == 'L' && d[1] == 'P' && d[2]
            == 'T')) && '1' <= d[3] && d[3] <= '9';
        let ghost t = d@.take(3);
        assert(t[0] == d@[0] && t[1] == d@[1] && t[2] == d@[2]);
        if d[0] == 'C' && d[1] == 'O' && d[2] == 'M' {
            assert(t =~= seq!['C', 'O', 'M']);
        }
        if d[0] == 'L' && d[1] == 'P' && d[2] == 'T' {
            assert(t =~= seq!['L', 'P', 'T']);
        }
        r
    } else {
        false
    }
}

/// The name under which a profile is kept: trimmed, cut to 64 characters,
/// without what a file name cannot hold, and not the name of a device.  A name
/// of which nothing is left stands for the default profile.
pub fn sanitize_config_name(name: &str) -> (r: String)
    ensures
        r@ == sanitized_name(name@),
{
    let chars = to_chars(name);
    let body = take_chars(&trim_chars(&chars), 64);
    let mut result: Vec<char> = Vec::new();
    let mut i: usize = 0;
    while i < body.len()
        invariant
            i <= body@.len(),
            result@ == masked(body@).take(i as int),
        decreases body@.len() - i,
    {
        if is_forbidden(body[i]) {
            result.push('_');
        } else {
            result.push(body[i]);
        }
        i = i + 1;
        assert(masked(body@).take(i as int) =~= masked(body@).take(i - 1).push(
            masked(body@)[i - 1],
        ));
    }
    assert(masked(body@).take(i as int) =~= masked(body@));
    let result = strip_tail(&result);
    if result.len() == 0 {
        DEFAULT_CONFIG_NAME.to_owned()
    } else if is_device(&result) {
        let mut out: Vec<char> = Vec::new();
        out.push('_');
        let mut i: usize = 0;
        while i < result.len()
            invariant
                i <= result@.len(),
                out@ == seq!['_'] + result@.take(i as int),
            decreases result@.len() - i,
        {
            out.push(result[i]);
            i = i + 1;
            assert(result@.take(i as int) =~= result@.take(i - 1).push(result@[i - 1]));
        }
        assert(result@.take(i as int) =~= result@);
        from_chars(&out)
    } else {
        from_chars(&result)
    }
}

proof fn lemma_without_tail(s: Seq<char>)
    ensures
        without_tail(s).len() <= s.len(),
        without_tail(s) == s.take(without_tail(s).len() as int),
        without_tail(s).len() > 0 ==> without_tail(s).last() != ' ' && without_tail(s).last()
            != '.',
    decreases s.len(),
{
    if s.len() > 0 && (s.last() == ' ' || s.last() == '.') {
        lemma_without_tail(s.drop_last());
        assert(s.drop_last().take(without_tail(s).len() as int) =~= s.take(
            without_tail(s).len() as int,
        ));
    } else {
        assert(s.take(s.len() as int) =~= s);
    }
}

/// What a name must be like to be kept as a file.
pub open spec fn safe_name(name: Seq<char>) -> bool {
    &&& 0 < name.len() <= 65
    &&& forall|i: int| 0 <= i < name.len() ==> !forbidden(#[trigger] name[i])
    &&& name.last() != ' '
    &&& name.last() != '.'
    &&& !names_device(name)
}

/// Whatever name is given, the profile is kept under one that is safe as a file
/// name.
pub proof fn lemma_sanitized_name_is_safe(name: Seq<char>)
    ensures
        safe_name(sanitized_name(name)),
{
    let cut = masked(crate::text::prefix(crate::text::trimmed(name), 64));
    let body = without_tail(cut);
    lemma_without_tail(cut);
    assert forall|i: int| 0 <= i < body.len() implies !forbidden(#[trigger] body[i]) by {
        assert(body[i] == cut[i]);
    }
    reveal_strlit("默认");
    if body.len() == 0 {
        lemma_device_part(DEFAULT_CONFIG_NAME@, 2);
    } else if names_device(body) {
        lemma_first_of_device(seq!['_'] + body);
    }
}

proof fn lemma_first_of_device(s: Seq<char>)
    requires
        s.len() > 0,
        s[0] == '_',
    ensures
        !names_device(s),
{
    let u = crate::text::uppercased(device_part(s));
    assert(device_part(s)[0] == '_');
    assert(u[0] == '_');
    if u.len() >= 3 {
        assert(u.take(3)[0] == '_');
    }
    assert(seq!['C', 'O', 'N'][0] == 'C');
    assert(seq!['P', 'R', 'N'][0] == 'P');
    assert(seq!['A', 'U', 'X'][0] == 'A');
    assert(seq!['N', 'U', 'L'][0] == 'N');
    assert(seq!['C', 'O', 'M'][0] == 'C');
    assert(seq!['L', 'P', 'T'][0] == 'L');
}

/// A safe name of at most 64 characters that neither begins nor ends with white
/// space is kept as it is.
pub proof fn lemma_safe_name_is_kept(name: Seq<char>)
    requires
        safe_name(name),
        name.len() <= 64,
        tidy(name),
    ensures
        sanitized_name(name) == name,
{
    lemma_tidy_stays(name, 64);
    assert(masked(name) =~= name);
}

/// A file name cannot hold control characters nor any of nine signs; each of
/// them is masked by an underscore, and nothing else is.
pub proof fn lemma_masked(s: Seq<char>, i: int)
    ensures
        masked(s).len() == s.len(),
        0 <= i < s.len() ==> {
            let c = s[i];
            let special = seq!['<', '>', ':', '"', '/', '\\', '|', '?', '*'].contains(c) || (
            c as int) < 32 || 127 <= (c as int) < 160;
            &&& special ==> masked(s)[i] == '_'
            &&& !special ==> masked(s)[i] == c
        },
{
    if 0 <= i < s.len() {
        let c = s[i];
        let signs = seq!['<', '>', ':', '"', '/', '\\', '|', '?', '*'];
        assert(signs[0] == '<' && signs[1] == '>' && signs[2] == ':' && signs[3] == '"' && signs[4]
            == '/' && signs[5] == '\\' && signs[6] == '|' && signs[7] == '?' && signs[8] == '*');
        if forbidden(c) && !crate::text::control(c) {
            assert(signs.contains(c));
        }
        if signs.contains(c) {
            let k = choose|k: int| 0 <= k < signs.len() && signs[k] == c;
            assert(0 <= k < 9);
        }
    }
}

/// The spaces and dots at the end of a text go, and nothing before them.
pub proof fn lemma_tail_goes(s: Seq<char>)
    ensures
        without_tail(s).len() <= s.len(),
        without_tail(s) == s.take(without_tail(s).len() as int),
        forall|i: int|
            without_tail(s).len() <= i < s.len() ==> (#[trigger] s[i]) == ' ' || s[i] == '.',
        without_tail(s).len() > 0 ==> without_tail(s).last() != ' ' && without_tail(s).last()
            != '.',
    decreases s.len(),
{
    lemma_without_tail(s);
    if s.len() > 0 && (s.last() == ' ' || s.last() == '.') {
        lemma_tail_goes(s.drop_last());
        assert forall|i: int| without_tail(s).len() <= i < s.len() implies (#[trigger] s[i]) == ' '
            || s[i] == '.' by {
            if i < s.len() - 1 {
                assert(s.drop_last()[i] == s[i]);
            }
        }
    }
}

/// A file is taken for a device by what stands before the first dot of its name,
/// in small or capital letters: one of four names, or one of two with a digit
/// from one to nine behind it.
pub proof fn lemma_devices(stem: Seq<char>, extension: Seq<char>)
    requires
        forall|i: int| 0 <= i < stem.len() ==> #[trigger] stem[i] != '.',
    ensures
        names_device(stem + seq!['.'] + extension) == names_device(stem),
        names_device(stem) <==> {
            let name = crate::text::uppercased(stem);
            ||| name == seq!['C', 'O', 'N'] || name == seq!['P', 'R', 'N']
            ||| name == seq!['A', 'U', 'X'] || name == seq!['N', 'U', 'L']
            ||| exists|digit: char|
                '1' <= digit <= '9' && (name == #[trigger] seq!['C', 'O', 'M', digit] || name
                    == seq!['L', 'P', 'T', digit])
        },
{
    let full = stem + seq!['.'] + extension;
    lemma_device_part(stem, stem.len() as int);
    assert(stem.take(stem.len() as int) =~= stem);
    assert(full[stem.len() as int] == '.');
    assert forall|i: int| 0 <= i < stem.len() implies full[i] != '.' by {
        assert(full[i] == stem[i]);
    }
    lemma_device_part(full, stem.len() as int);
    assert(full.take(stem.len() as int) =~= stem);
    let name = crate::text::uppercased(stem);
    if name.len() == 4 && '1' <= name[3] <= '9' {
        if name.take(3) == seq!['C', 'O', 'M'] {
            assert(name.take(3)[0] == name[0] && name.take(3)[1] == name[1] && name.take(3)[2]
                == name[2]);
            assert(name =~= seq!['C', 'O', 'M', name[3]]);
        }
        if name.take(3) == seq!['L', 'P', 'T'] {
            assert(name.take(3)[0] == name[0] && name.take(3)[1] == name[1] && name.take(3)[2]
                == name[2]);
            assert(name =~= seq!['L', 'P', 'T', name[3]]);
            assert(seq!['C', 'O', 'M', name[3]].len() == 4);
        }
    }
    if exists|digit: char|
        '1' <= digit <= '9' && (name == #[trigger] seq!['C', 'O', 'M', digit] || name == seq![
            'L',
            'P',
            'T',
            digit,
        ]) {
        let digit = choose|digit: char|
            '1' <= digit <= '9' && (name == #[trigger] seq!['C', 'O', 'M', digit] || name == seq![
                'L',
                'P',
                'T',
                digit,
            ]);
        if name == seq!['C', 'O', 'M', digit] {
            assert(name.take(3) =~= seq!['C', 'O', 'M']);
        } else {
            assert(name.take(3) =~= seq!['L', 'P', 'T']);
        }
    }
}

/// The name of a profile changes in no more than it must.  `n` is the length of
/// the given one within its first 64 characters, without white space around it
/// and without spaces and dots at its end: up to there it stays, with every
/// forbidden character masked.  Before a device an underscore is put, and where
/// nothing is left the default takes its place.
pub proof fn lemma_sanitized_name_keeps_what_it_can(name: Seq<char>, n: nat)
    requires
        n <= crate::text::trimmed(name).len(),
        n <= 64,
        n > 0 ==> crate::text::trimmed(name)[n - 1] != ' ' && crate::text::trimmed(name)[n - 1]
            != '.',
        forall|i: int|
            n <= i < crate::text::trimmed(name).len() && i < 64 ==> (
            #[trigger] crate::text::trimmed(name)[i]) == ' ' || crate::text::trimmed(name)[i]
                == '.',
    ensures
        ({
            let kept = masked(crate::text::trimmed(name).take(n as int));
            &&& n == 0 ==> sanitized_name(name) == "默认"@
            &&& n > 0 && !names_device(kept) ==> sanitized_name(name) == kept
            &&& n > 0 && names_device(kept) ==> sanitized_name(name) == seq!['_'] + kept
        }),
{
    let given = crate::text::trimmed(name);
    let cut = crate::text::prefix(given, 64);
    let mask = masked(cut);
    let inner = without_tail(mask);
    let kept = masked(given.take(n as int));
    lemma_tail_goes(mask);
    if inner.len() > n {
        let k = inner.len() - 1;
        assert(inner.last() == mask[k]);
        assert(cut[k] == given[k]);
        assert(given[k] == ' ' || given[k] == '.');
        assert(mask[k] == given[k]);
    }
    if inner.len() < n {
        assert(cut[n - 1] == given[n - 1]);
        assert(mask[n - 1] == ' ' || mask[n - 1] == '.');
    }
    assert(inner =~= kept);
}

} // verus!
