//! The profile that is being edited: how it is switched, saved and deleted.
use crate::config::{same_config, Config, DEFAULT_CONFIG_NAME};
use crate::store::{
    load_into, load_named_config, same_preferences, save_named_config, save_preferences,
    AppPreferences, StoredConfig,
};
use crate::text::{concat, concat3, same_text};
use vstd::prelude::*;

verus! {

/// Changes are saved at most once in so many milliseconds.
pub const AUTOSAVE_INTERVAL_MS: u64 = 750;

/// Profiles are switched by shortcut at most once in so many milliseconds.
pub const SWITCH_INTERVAL_MS: u64 = 300;

/// Whether at least `interval_ms` have gone by since something was last done; if
/// it never was, they have.
pub fn is_due(last_ms: Option<u64>, now_ms: u64, interval_ms: u64) -> (r: bool)
    ensures
        r == match last_ms {
            Some(last) => now_ms - last >= interval_ms,
            None => true,
        },
{
    match last_ms {
        Some(last) => now_ms >= last && now_ms - last >= interval_ms,
        None => true,
    }
}

// ---------------------------------------------------------------------------
// The next profile
// ---------------------------------------------------------------------------
/// The first position from `from` on at which a name is listed.
pub open spec fn listed_at(names: Seq<String>, name: Seq<char>, from: nat) -> Option<nat>
    decreases names.len() - from,
{
    if from >= names.len() {
        None
    } else if names[from as int]@ == name {
        Some(from)
    } else {
        listed_at(names, name, from + 1)
    }
}

/// The profile after the selected one in the list, and after the last one the
/// first one; none if the selected one is not listed.
pub open spec fn next_position(names: Seq<String>, selected: Seq<char>) -> Option<int> {
    match listed_at(names, selected, 0) {
        Some(at) => Some(
            if at + 1 == names.len() {
                0
            } else {
                at as int + 1
            },
        ),
        None => None,
    }
}

/// The profile after the selected one in the list.
pub fn next_profile(names: &Vec<String>, selected: &str) -> (r: Option<usize>)
    ensures
        match r {
            Some(position) => position < names@.len() && next_position(names@, selected@) == Some(
                position as int,
            ),
            None => next_position(names@, selected@) is None,
        },
{
    let mut i: usize = 0;
    while i < names.len()
        invariant
            i <= names@.len(),
            listed_at(names@, selected@, 0) == listed_at(names@, selected@, i as nat),
        decreases names@.len() - i,
    {
        if same_text(&names[i], selected) {
            return Some(
                if i + 1 == names.len() {
                    0
                } else {
                    i + 1
                },
            );
        }
        i = i + 1;
    }
    None
}

/// The selected profile after a number of switches, by its position.
pub open spec fn position_after(names: Seq<String>, at: int, switches: nat) -> int
    decreases switches,
{
    if switches == 0 {
        at
    } else {
        next_position(
            names,
            names[position_after(names, at, (switches - 1) as nat)]@,
        )->Some_0
    }
}

/// No name is listed twice.
pub open spec fn distinct_names(names: Seq<String>) -> bool {
    forall|i: int, j: int|
        #![trigger names[i], names[j]]
        0 <= i < j < names.len() ==> names[i]@ != names[j]@
}

proof fn lemma_listed_at(names: Seq<String>, at: int, from: nat)
    requires
        distinct_names(names),
        from <= at < names.len(),
    ensures
        listed_at(names, names[at]@, from) == Some(at as nat),
    decreases at - from,
{
    if from < at {
        assert(names[from as int]@ != names[at]@);
        lemma_listed_at(names, at, from + 1);
    }
}

/// Switching goes through the list in order and around its end: so many switches
/// lead so many places further, and as many as there are profiles lead back.
pub proof fn lemma_switching_cycles(names: Seq<String>, at: int, switches: nat)
    requires
        distinct_names(names),
        0 <= at < names.len(),
    ensures
        0 <= position_after(names, at, switches) < names.len(),
        position_after(names, at, switches) == (at + switches) % (names.len() as int),
        position_after(names, at, names.len()) == at,
    decreases switches,
{
    lemma_switch_count(names, at, switches);
    lemma_switch_count(names, at, names.len());
    let n = names.len() as int;
    assert((at + n) % n == at) by {
        vstd::arithmetic::div_mod::lemma_mod_add_multiples_vanish(at, n);
        vstd::arithmetic::div_mod::lemma_small_mod(at as nat, n as nat);
    }
}

proof fn lemma_switch_count(names: Seq<String>, at: int, switches: nat)
    requires
        distinct_names(names),
        0 <= at < names.len(),
    ensures
        0 <= position_after(names, at, switches) < names.len(),
        position_after(names, at, switches) == (at + switches) % (names.len() as int),
    decreases switches,
{
    let n = names.len() as int;
    if switches == 0 {
        vstd::arithmetic::div_mod::lemma_small_mod(at as nat, n as nat);
    } else {
        lemma_switch_count(names, at, (switches - 1) as nat);
        let before = position_after(names, at, (switches - 1) as nat);
        lemma_listed_at(names, before, 0);
        let total = at + switches - 1;
        let q = total / n;
        vstd::arithmetic::div_mod::lemma_fundamental_div_mod(total, n);
        if before + 1 == n {
            assert((q + 1) * n == q * n + n) by (nonlinear_arith);
            assert(n * q == q * n) by (nonlinear_arith);
            vstd::arithmetic::div_mod::lemma_fundamental_div_mod_converse(total + 1, n, q + 1, 0);
        } else {
            assert(n * q == q * n) by (nonlinear_arith);
            vstd::arithmetic::div_mod::lemma_fundamental_div_mod_converse(
                total + 1,
                n,
                q,
                before + 1,
            );
        }
    }
}

// ---------------------------------------------------------------------------
// The session
// ---------------------------------------------------------------------------
/// The profile that is being edited.
pub struct Session {
    pub config: Config,
    pub preferences: AppPreferences,
    /// What stands in the field for the name of a profile.
    pub profile_name_edit: String,
    /// What is shown of the last operation.
    pub status: String,
    pub last_saved_config: Config,
    pub last_saved_preferences: AppPreferences,
}

/// The mathematical content of a [`Session`].
#[verifier::ext_equal]
pub struct SessionModel {
    pub config: crate::config::ConfigModel,
    pub preferences: crate::store::PreferencesModel,
    pub profile_name_edit: Seq<char>,
    pub status: Seq<char>,
    pub last_saved_config: crate::config::ConfigModel,
    pub last_saved_preferences: crate::store::PreferencesModel,
}

impl View for Session {
    type V = SessionModel;

    open spec fn view(&self) -> SessionModel {
        SessionModel {
            config: self.config@,
            preferences: self.preferences@,
            profile_name_edit: self.profile_name_edit@,
            status: self.status@,
            last_saved_config: self.last_saved_config@,
            last_saved_preferences: self.last_saved_preferences@,
        }
    }
}

/// Preferences with another profile selected.
pub open spec fn with_selected(
    p: crate::store::PreferencesModel,
    name: Seq<char>,
) -> crate::store::PreferencesModel {
    crate::store::PreferencesModel { selected_config: name, ..p }
}

/// A profile that is being saved.
pub struct PendingSave {
    /// The name under which it is kept.
    pub name: String,
    /// What is written.
    pub content: Config,
    /// The profile as it was before its values were brought into range.
    pub before: Config,
}

/// Why a profile is saved, by which a failure is named.
#[derive(Debug, Clone, Copy, PartialEq, Eq, Structural)]
pub enum SaveReason {
    /// It was changed some time ago.
    Autosave,
    /// Something else is about to be done.
    BeforeSwitch,
}

/// How a failure to save is named.
pub open spec fn save_failure(reason: SaveReason) -> Seq<char> {
    match reason {
        SaveReason::Autosave => "自动保存失败: "@,
        SaveReason::BeforeSwitch => "保存失败: "@,
    }
}

/// How a profile was chosen.
#[derive(Debug, Clone, Copy, PartialEq, Eq, Structural)]
pub enum Choice {
    /// By the shortcut for the next one.
    Next,
    /// By its name in the field.
    Named,
    /// In the list.
    Listed,
}

/// How a failure to load a profile is named.
pub open spec fn load_failure(choice: Choice) -> Seq<char> {
    match choice {
        Choice::Next => "切换配置失败: "@,
        Choice::Named => "加载失败: "@,
        Choice::Listed => "切换失败: "@,
    }
}

/// What is shown once a profile is loaded.
pub open spec fn load_message(choice: Choice, name: Seq<char>, before: Seq<char>) -> Seq<char> {
    match choice {
        Choice::Next => "已切换到配置 ["@ + name + "]"@,
        Choice::Named => "已加载配置 ["@ + name + "]"@,
        Choice::Listed => before,
    }
}

/// A session after a profile was chosen, given what its file holds: the profile
/// is loaded and selected, or only the failure is shown.
pub open spec fn chosen(
    s: SessionModel,
    name: Seq<char>,
    stored: Option<StoredConfig>,
    choice: Choice,
) -> SessionModel {
    let loaded = match stored {
        None => Err(crate::store::missing_message(name)),
        Some(stored) => crate::store::stored_profile(stored),
    };
    match loaded {
        Err(error) => SessionModel { status: load_failure(choice) + error, ..s },
        Ok(profile) => SessionModel {
            config: profile,
            last_saved_config: profile,
            preferences: with_selected(s.preferences, name),
            profile_name_edit: if choice == Choice::Named {
                s.profile_name_edit
            } else {
                name
            },
            status: load_message(choice, name, s.status),
            ..s
        },
    }
}

impl Session {
    /// A session that begins with a profile and preferences as they are stored.
    pub fn new(config: Config, preferences: AppPreferences, status: String) -> (r: Session)
        ensures
            r@ == (SessionModel {
                config: config@,
                preferences: preferences@,
                profile_name_edit: preferences@.selected_config,
                status: status@,
                last_saved_config: config@,
                last_saved_preferences: preferences@,
            }),
    {
        let last_saved_config = config.clone();
        let last_saved_preferences = preferences.clone();
        let profile_name_edit = preferences.selected_config.clone();
        Session {
            config,
            preferences,
            profile_name_edit,
            status,
            last_saved_config,
            last_saved_preferences,
        }
    }

    /// The profile to write, if it was changed since it was last saved.  Its
    /// values are brought into range.
    pub fn begin_save(&mut self) -> (r: Option<PendingSave>)
        ensures
            match r {
                None => {
                    &&& old(self)@.config == old(self)@.last_saved_config
                    &&& final(self)@ == old(self)@
                },
                Some(pending) => {
                    &&& old(self)@.config != old(self)@.last_saved_config
                    &&& pending.name@ == crate::config::sanitized_name(
                        old(self)@.preferences.selected_config,
                    )
                    &&& pending.before@ == old(self)@.config
                    &&& pending.content@ == crate::config::sanitized(old(self)@.config)
                    &&& final(self)@ == (SessionModel {
                        config: crate::config::sanitized(old(self)@.config),
                        ..old(self)@
                    })
                },
            },
    {
        if same_config(&self.config, &self.last_saved_config) {
            return None;
        }
        let before = self.config.clone();
        let name = self.preferences.selected_config.clone();
        let (name, content) = save_named_config(&name, &mut self.config);
        Some(PendingSave { name, content, before })
    }

    /// Takes note of whether the profile was written.
    pub fn finish_save(
        &mut self,
        pending: PendingSave,
        error: Option<String>,
        reason: SaveReason,
    )
        ensures
            final(self)@ == match error {
                None => SessionModel { last_saved_config: pending.before@, ..old(self)@ },
                Some(error) => SessionModel {
                    status: save_failure(reason) + error@,
                    ..old(self)@
                },
            },
    {
        match error {
            None => {
                self.last_saved_config = pending.before;
            },
            Some(error) => {
                let what: &str = match reason {
                    SaveReason::Autosave => "自动保存失败: ",
                    SaveReason::BeforeSwitch => "保存失败: ",
                };
                self.status = concat(what, &error);
            },
        }
    }

    /// The preferences to write, if they were changed since they were last
    /// saved.
    pub fn begin_save_preferences(&self) -> (r: Option<AppPreferences>)
        ensures
            match r {
                None => self@.preferences == self@.last_saved_preferences,
                Some(content) => {
                    &&& self@.preferences != self@.last_saved_preferences
                    &&& content@ == crate::store::sanitized_preferences(self@.preferences)
                },
            },
    {
        if same_preferences(&self.preferences, &self.last_saved_preferences) {
            return None;
        }
        Some(save_preferences(&self.preferences))
    }

    /// Takes note of whether the preferences were written.
    pub fn finish_save_preferences(&mut self, error: Option<String>)
        ensures
            final(self)@ == match error {
                None => SessionModel {
                    last_saved_preferences: old(self)@.preferences,
                    ..old(self)@
                },
                Some(error) => SessionModel { status: "保存偏好失败: "@ + error@, ..old(self)@ },
            },
    {
        match error {
            None => {
                self.last_saved_preferences = self.preferences.clone();
            },
            Some(error) => {
                self.status = concat("保存偏好失败: ", &error);
            },
        }
    }

    /// Loads and selects a profile, given what its file holds.
    pub fn choose_profile(&mut self, name: &str, stored: Option<StoredConfig>, choice: Choice) -> (r:
        bool)
        ensures
            final(self)@ == chosen(old(self)@, name@, stored, choice),
            r == match stored {
                None => false,
                Some(stored) => crate::store::stored_profile(stored) is Ok,
            },
    {
        match load_into(name, stored, &mut self.config) {
            Err(error) => {
                let what: &str = match choice {
                    Choice::Next => "切换配置失败: ",
                    Choice::Named => "加载失败: ",
                    Choice::Listed => "切换失败: ",
                };
                self.status = concat(what, &error);
                false
            },
            Ok(()) => {
                self.preferences.selected_config = name.to_owned();
                self.last_saved_config = self.config.clone();
                match choice {
                    Choice::Next => {
                        self.profile_name_edit = name.to_owned();
                        self.status = concat3("已切换到配置 [", name, "]");
                    },
                    Choice::Named => {
                        self.status = concat3("已加载配置 [", name, "]");
                    },
                    Choice::Listed => {
                        self.profile_name_edit = name.to_owned();
                    },
                }
                true
            },
        }
    }

    /// The profile to write under the name in the field.  Its values are brought
    /// into range.
    pub fn begin_save_as(&mut self) -> (r: (String, Config))
        ensures
            r.0@ == crate::config::sanitized_name(old(self)@.profile_name_edit),
            r.1@ == crate::config::sanitized(old(self)@.config),
            final(self)@ == (SessionModel {
                config: crate::config::sanitized(old(self)@.config),
                ..old(self)@
            }),
    {
        let name = self.profile_name_edit.clone();
        save_named_config(&name, &mut self.config)
    }

    /// Takes note of whether the profile was written under its new name.
    pub fn finish_save_as(&mut self, name: &str, error: Option<String>)
        ensures
            final(self)@ == match error {
                None => SessionModel {
                    preferences: with_selected(old(self)@.preferences, name@),
                    profile_name_edit: name@,
                    last_saved_config: old(self)@.config,
                    status: "配置已保存"@,
                    ..old(self)@
                },
                Some(error) => SessionModel { status: "保存失败: "@ + error@, ..old(self)@ },
            },
    {
        match error {
            None => {
                self.preferences.selected_config = name.to_owned();
                self.profile_name_edit = name.to_owned();
                self.last_saved_config = self.config.clone();
                self.status = "配置已保存".to_owned();
            },
            Some(error) => {
                self.status = concat("保存失败: ", &error);
            },
        }
    }

    /// Takes note of whether the profile named in the field was deleted.  If it
    /// was the selected one, the default one takes its place, given what its
    /// file holds.
    pub fn finish_delete(&mut self, error: Option<String>, default_profile: Option<StoredConfig>)
        ensures
            final(self)@ == match error {
                Some(error) => SessionModel { status: "删除失败: "@ + error@, ..old(self)@ },
                None => {
                    let name = old(self)@.profile_name_edit;
                    let done = SessionModel { status: "已删除配置 ["@ + name + "]"@, ..old(self)@ };
                    if old(self)@.preferences.selected_config != name {
                        done
                    } else {
                        let reset = SessionModel {
                            preferences: with_selected(done.preferences, DEFAULT_CONFIG_NAME@),
                            profile_name_edit: DEFAULT_CONFIG_NAME@,
                            ..done
                        };
                        match default_profile {
                            Some(stored) => match crate::store::stored_profile(stored) {
                                Ok(profile) => SessionModel {
                                    config: profile,
                                    last_saved_config: profile,
                                    ..reset
                                },
                                Err(_) => reset,
                            },
                            None => reset,
                        }
                    }
                },
            },
    {
        match error {
            Some(error) => {
                self.status = concat("删除失败: ", &error);
            },
            None => {
                let name = self.profile_name_edit.clone();
                if same_text(&self.preferences.selected_config, &name) {
                    self.preferences.selected_config = DEFAULT_CONFIG_NAME.to_owned();
                    self.profile_name_edit = DEFAULT_CONFIG_NAME.to_owned();
                    if load_into(DEFAULT_CONFIG_NAME, default_profile, &mut self.config).is_ok() {
                        self.last_saved_config = self.config.clone();
                    }
                }
                self.status = concat3("已删除配置 [", &name, "]");
            },
        }
    }
}

/// A profile that could not be loaded leaves the one that is being edited as it
/// is.
pub proof fn lemma_failed_choice_keeps_profile(
    s: SessionModel,
    name: Seq<char>,
    stored: Option<StoredConfig>,
    choice: Choice,
)
    requires
        stored is None || crate::store::stored_profile(stored->Some_0) is Err,
    ensures
        chosen(s, name, stored, choice).config == s.config,
        chosen(s, name, stored, choice).preferences == s.preferences,
        chosen(s, name, stored, choice).last_saved_config == s.last_saved_config,
{
}

/// Right after a profile was loaded there is nothing to save.
pub proof fn lemma_loaded_profile_is_saved(
    s: SessionModel,
    name: Seq<char>,
    stored: StoredConfig,
    choice: Choice,
)
    requires
        crate::store::stored_profile(stored) is Ok,
    ensures
        chosen(s, name, Some(stored), choice).config == chosen(
            s,
            name,
            Some(stored),
            choice,
        ).last_saved_config,
        chosen(s, name, Some(stored), choice).preferences.selected_config == name,
{
}

// ---------------------------------------------------------------------------
// The first profile of a run of the program
// ---------------------------------------------------------------------------
/// The profile with which the program begins.
pub struct InitialProfile {
    pub config: Config,
    /// The profile is the default one instead of the one that was selected last.
    pub fell_back: bool,
    pub status: String,
}

/// The profile with which the program begins, given what the file of the one
/// selected last and that of the default one hold: the selected one, else the
/// default one, else a new one.
pub fn initial_profile(
    selected: &str,
    stored: Option<StoredConfig>,
    default_stored: Option<StoredConfig>,
) -> (r: InitialProfile)
    ensures
        ({
            let loaded = match stored {
                None => Err(crate::store::missing_message(selected@)),
                Some(stored) => crate::store::stored_profile(stored),
            };
            let fallback = match default_stored {
                None => Err(crate::store::missing_message(DEFAULT_CONFIG_NAME@)),
                Some(stored) => crate::store::stored_profile(stored),
            };
            match (loaded, fallback) {
                (Ok(profile), _) => {
                    &&& !r.fell_back
                    &&& r.config@ == profile
                    &&& r.status@ == "配置 ["@ + selected@ + "] 已加载"@
                },
                (Err(error), Ok(profile)) => {
                    &&& r.fell_back
                    &&& r.config@ == profile
                    &&& r.status@ == "无法加载配置, 已切换到默认 "@ + error
                },
                (Err(_), Err(inner)) => {
                    &&& r.fell_back
                    &&& r.config@ == crate::config::default_config()
                    &&& r.status@ == "无法加载任何配置: "@ + inner
                },
            }
        }),
{
    match load_named_config(selected, stored) {
        Ok(config) => InitialProfile {
            config,
            fell_back: false,
            status: concat3("配置 [", selected, "] 已加载"),
        },
        Err(error) => match load_named_config(DEFAULT_CONFIG_NAME, default_stored) {
            Ok(config) => InitialProfile {
                config,
                fell_back: true,
                status: concat("无法加载配置, 已切换到默认 ", &error),
            },
            Err(inner) => InitialProfile {
                config: Config::default(),
                fell_back: true,
                status: concat("无法加载任何配置: ", &inner),
            },
        },
    }
}

proof fn lemma_first_place(names: Seq<String>, name: Seq<char>, from: nat)
    ensures
        match listed_at(names, name, from) {
            Some(at) => {
                &&& from <= at < names.len()
                &&& names[at as int]@ == name
                &&& forall|i: int| from <= i < at ==> (#[trigger] names[i])@ != name
            },
            None => forall|i: int| from <= i < names.len() ==> (#[trigger] names[i])@ != name,
        },
    decreases names.len() - from,
{
    if from < names.len() && names[from as int]@ != name {
        lemma_first_place(names, name, from + 1);
    }
}

/// The next profile is the one behind the place where the selected one is listed
/// first, and the first one behind the last; there is none exactly if the
/// selected one is not listed.
pub proof fn lemma_next_position(names: Seq<String>, selected: Seq<char>)
    ensures
        next_position(names, selected) is None <==> forall|i: int|
            0 <= i < names.len() ==> (#[trigger] names[i])@ != selected,
        forall|at: int|
            0 <= at < names.len() && (#[trigger] names[at])@ == selected && (forall|i: int|
                0 <= i < at ==> (#[trigger] names[i])@ != selected) ==> next_position(
                names,
                selected,
            ) == Some(
                if at == names.len() - 1 {
                    0int
                } else {
                    at + 1
                },
            ),
{
    lemma_first_place(names, selected, 0);
    assert forall|at: int|
        0 <= at < names.len() && (#[trigger] names[at])@ == selected && (forall|i: int|
            0 <= i < at ==> (#[trigger] names[i])@ != selected) implies next_position(
        names,
        selected,
    ) == Some(
        if at == names.len() - 1 {
            0int
        } else {
            at + 1
        },
    ) by {
        let found = listed_at(names, selected, 0)->Some_0;
        if found < at {
            assert(names[found as int]@ == selected);
        }
    }
}

/// A profile that was loaded is the one that is edited, as its file holds it,
/// under the name that was chosen; what was saved of the preferences is not
/// touched.  The field for the name follows, unless the name came from it.
pub proof fn lemma_chosen_profile_is_edited(
    s: SessionModel,
    name: Seq<char>,
    stored: StoredConfig,
    choice: Choice,
)
    requires
        crate::store::stored_profile(stored) is Ok,
    ensures
        ({
            let r = chosen(s, name, Some(stored), choice);
            &&& Ok::<_, Seq<char>>(r.config) == crate::store::stored_profile(stored)
            &&& r.last_saved_config == r.config
            &&& r.preferences.selected_config == name
            &&& r.preferences.cycle_config_hotkey == s.preferences.cycle_config_hotkey
            &&& r.preferences.window_width_bits == s.preferences.window_width_bits
            &&& r.preferences.window_height_bits == s.preferences.window_height_bits
            &&& r.last_saved_preferences == s.last_saved_preferences
            &&& choice is Named ==> r.profile_name_edit == s.profile_name_edit
            &&& !(choice is Named) ==> r.profile_name_edit == name
            &&& choice is Listed ==> r.status == s.status
            &&& !(choice is Listed) ==> crate::text::occurs_in(r.status, name)
        }),
{
    crate::text::lemma_occurrence("已切换到配置 ["@, name, "]"@, name);
    crate::text::lemma_occurrence("已加载配置 ["@, name, "]"@, name);
}

/// A profile that could not be loaded changes nothing but what is shown, and
/// that ends with the reason: the one that was read, or that there is none.
pub proof fn lemma_failed_choice_tells_why(
    s: SessionModel,
    name: Seq<char>,
    reason: String,
    choice: Choice,
)
    ensures
        ({
            let failed = chosen(s, name, Some(StoredConfig::Unreadable(reason)), choice);
            let missing = chosen(s, name, None, choice);
            let why = crate::store::missing_message(name);
            &&& failed == (SessionModel { status: failed.status, ..s })
            &&& missing == (SessionModel { status: missing.status, ..s })
            &&& failed.status.len() >= reason@.len() && failed.status.skip(
                failed.status.len() - reason@.len(),
            ) == reason@
            &&& missing.status.len() >= why.len() && missing.status.skip(
                missing.status.len() - why.len(),
            ) == why
        }),
{
    let failed = chosen(s, name, Some(StoredConfig::Unreadable(reason)), choice);
    let missing = chosen(s, name, None, choice);
    let why = crate::store::missing_message(name);
    let head = load_failure(choice);
    assert(failed.status == head + reason@);
    assert(missing.status == head + why);
    assert((head + reason@).skip(head.len() as int) =~= reason@);
    assert((head + why).skip(head.len() as int) =~= why);
}

/// What failed is told apart: every way to choose a profile has words of its own
/// for it, and so has every reason for saving.
pub proof fn lemma_failures_are_told_apart(
    a: Choice,
    b: Choice,
    reason: SaveReason,
    other: SaveReason,
)
    ensures
        load_failure(a) == load_failure(b) <==> a == b,
        save_failure(reason) == save_failure(other) <==> reason == other,
        load_failure(a).len() > 0,
        save_failure(reason).len() > 0,
{
    reveal_strlit("切换配置失败: ");
    reveal_strlit("加载失败: ");
    reveal_strlit("切换失败: ");
    reveal_strlit("自动保存失败: ");
    reveal_strlit("保存失败: ");
    assert("加载失败: "@[0] != "切换失败: "@[0]);
    assert("切换配置失败: "@.len() != "切换失败: "@.len());
    assert("切换配置失败: "@.len() != "加载失败: "@.len());
    assert("自动保存失败: "@.len() != "保存失败: "@.len());
}

/// A profile is saved when it differs from what was saved last, and at no other
/// time.  Once that is done nothing is left to save, unless its values had to be
/// brought into range; a failure is told and leaves everything else as it was.
pub proof fn lemma_saving(
    before: &mut Session,
    after: &mut Session,
    saved: Option<PendingSave>,
    error: Option<String>,
    reason: SaveReason,
)
    requires
        call_ensures(Session::begin_save, (before,), saved),
        saved matches Some(pending) ==> old(after)@ == final(before)@ && call_ensures(
            Session::finish_save,
            (after, pending, error, reason),
            (),
        ),
    ensures
        saved is None <==> old(before)@.config == old(before)@.last_saved_config,
        final(before)@.last_saved_config == old(before)@.last_saved_config,
        final(before)@.preferences == old(before)@.preferences,
        final(before)@.status == old(before)@.status,
        saved matches Some(pending) ==> {
            &&& pending.content@ == final(before)@.config
            &&& crate::config::sanitized(old(before)@.config) == pending.content@
            &&& pending.name@ == crate::config::sanitized_name(
                old(before)@.preferences.selected_config,
            )
            &&& final(after)@.config == pending.content@
            &&& error is None ==> final(after)@.last_saved_config == old(before)@.config
                && final(after)@.status == old(before)@.status
            &&& error is None && crate::config::sanitized(old(before)@.config)
                == old(before)@.config ==> final(after)@.config == final(after)@.last_saved_config
            &&& error matches Some(why) ==> final(after)@.last_saved_config
                == old(before)@.last_saved_config && crate::text::occurs_in(
                final(after)@.status,
                why@,
            )
            &&& final(after)@.preferences == old(before)@.preferences
            &&& final(after)@.profile_name_edit == old(before)@.profile_name_edit
        },
{
    if let Some(why) = error {
        let none = Seq::<char>::empty();
        let head = save_failure(reason);
        crate::text::lemma_occurrence(head, why@, none, none);
        assert(head + why@ + none =~= head + why@);
    }
}

/// Preferences are saved when they differ from those saved last; once that is
/// done nothing is left to save, and after a failure still the same is.
pub proof fn lemma_saving_preferences(
    before: &Session,
    after: &mut Session,
    saved: Option<AppPreferences>,
    error: Option<String>,
)
    requires
        call_ensures(Session::begin_save_preferences, (before,), saved),
        old(after)@ == before@,
        call_ensures(Session::finish_save_preferences, (after, error), ()),
    ensures
        saved is None <==> before@.preferences == before@.last_saved_preferences,
        saved matches Some(content) ==> content@ == crate::store::sanitized_preferences(
            before@.preferences,
        ),
        error is None ==> final(after)@.preferences == final(after)@.last_saved_preferences
            && final(after)@.status == before@.status,
        error matches Some(why) ==> final(after)@.last_saved_preferences
            == before@.last_saved_preferences && crate::text::occurs_in(
            final(after)@.status,
            why@,
        ),
        final(after)@.preferences == before@.preferences,
        final(after)@.config == before@.config,
        final(after)@.last_saved_config == before@.last_saved_config,
        final(after)@.profile_name_edit == before@.profile_name_edit,
{
    if let Some(why) = error {
        let none = Seq::<char>::empty();
        crate::text::lemma_occurrence("保存偏好失败: "@, why@, none, none);
        assert("保存偏好失败: "@ + why@ + none =~= "保存偏好失败: "@ + why@);
    }
}

/// A profile saved under a name is the selected one from then on, with nothing
/// left to save; after a failure the selection stays, and the reason is told.
pub proof fn lemma_saving_as(
    before: &mut Session,
    after: &mut Session,
    saved: (String, Config),
    name: &str,
    error: Option<String>,
)
    requires
        call_ensures(Session::begin_save_as, (before,), saved),
        name@ == saved.0@,
        old(after)@ == final(before)@,
        call_ensures(Session::finish_save_as, (after, name, error), ()),
    ensures
        saved.0@ == crate::config::sanitized_name(old(before)@.profile_name_edit),
        saved.1@ == crate::config::sanitized(old(before)@.config),
        final(after)@.config == saved.1@,
        final(after)@.last_saved_preferences == old(before)@.last_saved_preferences,
        error is None ==> {
            &&& final(after)@.preferences.selected_config == saved.0@
            &&& final(after)@.profile_name_edit == saved.0@
            &&& final(after)@.last_saved_config == final(after)@.config
            &&& final(after)@.status != "保存失败: "@
        },
        error matches Some(why) ==> {
            &&& final(after)@.preferences == old(before)@.preferences
            &&& final(after)@.profile_name_edit == old(before)@.profile_name_edit
            &&& final(after)@.last_saved_config == old(before)@.last_saved_config
            &&& crate::text::occurs_in(final(after)@.status, why@)
        },
{
    reveal_strlit("配置已保存");
    reveal_strlit("保存失败: ");
    assert("配置已保存"@[0] != "保存失败: "@[0]);
    if let Some(why) = error {
        let none = Seq::<char>::empty();
        crate::text::lemma_occurrence("保存失败: "@, why@, none, none);
        assert("保存失败: "@ + why@ + none =~= "保存失败: "@ + why@);
    }
}

/// Deleting another profile than the selected one changes nothing but what is
/// told.  Deleting the selected one selects the default, which is then edited with
/// nothing left to save, if it can be read.  A failure changes nothing but what is
/// told.
pub proof fn lemma_deleting(
    s: &mut Session,
    error: Option<String>,
    default_profile: Option<StoredConfig>,
)
    requires
        call_ensures(Session::finish_delete, (s, error, default_profile), ()),
    ensures
        ({
            let (before, after) = (old(s)@, final(s)@);
            let told = SessionModel { status: after.status, ..before };
            let name = before.profile_name_edit;
            let selected = before.preferences.selected_config == name;
            &&& error matches Some(why) ==> after == told && crate::text::occurs_in(
                after.status,
                why@,
            )
            &&& error is None ==> crate::text::occurs_in(after.status, name)
            &&& error is None && !selected ==> after == told
            &&& error is None && selected ==> {
                &&& after.preferences.selected_config == "默认"@
                &&& after.profile_name_edit == "默认"@
                &&& after.preferences == (crate::store::PreferencesModel {
                    selected_config: "默认"@,
                    ..before.preferences
                })
                &&& after.last_saved_preferences == before.last_saved_preferences
                &&& match default_profile {
                    Some(stored) => match crate::store::stored_profile(stored) {
                        Ok(profile) => after.config == profile && after.last_saved_config
                            == profile,
                        Err(_) => after.config == before.config && after.last_saved_config
                            == before.last_saved_config,
                    },
                    None => after.config == before.config && after.last_saved_config
                        == before.last_saved_config,
                }
            }
        }),
{
    let none = Seq::<char>::empty();
    let name = old(s)@.profile_name_edit;
    match error {
        Some(why) => {
            crate::text::lemma_occurrence("删除失败: "@, why@, none, none);
            assert("删除失败: "@ + why@ + none =~= "删除失败: "@ + why@);
        },
        None => {
            crate::text::lemma_occurrence("已删除配置 ["@, name, "]"@, none);
        },
    }
}

/// At the start the selected profile is edited if it can be read, else the stored
/// default, else one with nothing in it; what is told names the profile, or why it
/// could not be read.
pub proof fn lemma_start(
    selected: &str,
    stored: Option<StoredConfig>,
    default_stored: Option<StoredConfig>,
    r: InitialProfile,
)
    requires
        call_ensures(initial_profile, (selected, stored, default_stored), r),
    ensures
        ({
            let readable = |kept: Option<StoredConfig>| kept is Some
                && crate::store::stored_profile(kept->Some_0) is Ok;
            &&& r.fell_back <==> !readable(stored)
            &&& readable(stored) ==> Ok::<_, Seq<char>>(r.config@) == crate::store::stored_profile(
                stored->Some_0,
            ) && crate::text::occurs_in(r.status@, selected@)
            &&& !readable(stored) && readable(default_stored) ==> Ok::<_, Seq<char>>(r.config@)
                == crate::store::stored_profile(default_stored->Some_0)
            &&& !readable(stored) && !readable(default_stored) ==> r.config@
                == crate::config::default_config()
            &&& stored is None && readable(default_stored) ==> crate::text::occurs_in(
                r.status@,
                crate::store::missing_message(selected@),
            )
        }),
{
    let none = Seq::<char>::empty();
    crate::text::lemma_occurrence("配置 ["@, selected@, "] 已加载"@, none);
    let why = crate::store::missing_message(selected@);
    crate::text::lemma_occurrence("无法加载配置, 已切换到默认 "@, why, none, none);
    assert("无法加载配置, 已切换到默认 "@ + why + none =~= "无法加载配置, 已切换到默认 "@ + why);
}

/// What was never done is due; what was done is due once the interval has passed
/// since, and stays due.
pub proof fn lemma_due(last: u64, now: u64, later: u64, interval: u64, r: bool, s: bool, t: bool)
    requires
        call_ensures(is_due, (None, now, interval), r),
        call_ensures(is_due, (Some(last), now, interval), s),
        now <= later,
        call_ensures(is_due, (Some(last), later, interval), t),
    ensures
        r,
        s ==> t,
        now == last + interval ==> s,
        last <= now < last + interval ==> !s,
{
}

} // verus!
