//! Where profiles and preferences are kept, and how they are read back.
use crate::config::{sanitize_config_name, Config, KeyConfig, DEFAULT_CONFIG_NAME, DEFAULT_CYCLE_HOTKEY};
use crate::order::{comes_before, to_lowercase};
use crate::paths::is_drive_at;
use crate::random::random_u64;
use crate::text::{
    concat, concat3, contains, format_decimal, from_chars, is_ascii_digit, same_text, slice_chars,
    to_chars, trim_and_take,
};
use vstd::prelude::*;

verus! {

// ---------------------------------------------------------------------------
// Paths
// ---------------------------------------------------------------------------
/// The name of the directory that holds all data of the program.
pub const APP_DIRECTORY_NAME: &'static str = "AutoKey-Rust";

/// Whether a path needs no separator before its next component: it ends with one,
/// or is only a drive.
pub open spec fn takes_component(path: Seq<char>) -> bool {
    ||| path.len() == 0
    ||| path.last() == '\\'
    ||| path.last() == '/'
    ||| path.len() == 2 && crate::paths::drive_at(path, 0)
}

/// A path with one more component.
pub open spec fn joined(path: Seq<char>, component: Seq<char>) -> Seq<char> {
    if takes_component(path) {
        path + component
    } else {
        path + seq!['\\'] + component
    }
}

/// Adds a component to a path.
pub fn join(path: &str, component: &str) -> (r: String)
    ensures
        r@ == joined(path@, component@),
{
    let chars = to_chars(path);
    let n: usize = chars.len();
    if n == 0 || chars[n - 1] == '\\' || chars[n - 1] == '/' || (n == 2 && is_drive_at(
        &chars,
        0,
    )) {
        concat(path, component)
    } else {
        let r = concat3(path, "\\", component);
        proof {
            reveal_strlit("\\");
            assert("\\"@ =~= seq!['\\']);
        }
        r
    }
}

/// The directory for the data of programs, by the value of `APPDATA`; the
/// current directory where that is not set.
pub open spec fn app_data_of(app_data: Option<Seq<char>>) -> Seq<char> {
    match app_data {
        Some(path) => path,
        None => "."@,
    }
}

/// The directory for the data of programs, by the value of `APPDATA`; the
/// current directory where that is not set.
pub fn app_data_directory(app_data: Option<String>) -> (r: String)
    ensures
        r@ == app_data_of(crate::config::text_of(app_data)),
{
    match app_data {
        Some(path) => path,
        None => ".".to_owned(),
    }
}

/// The directory that holds all data of the program.
pub fn app_directory(app_data: &str) -> (r: String)
    ensures
        r@ == joined(app_data@, APP_DIRECTORY_NAME@),
{
    join(app_data, APP_DIRECTORY_NAME)
}

/// The directory that holds the profiles.
pub open spec fn config_directory_of(app_data: Seq<char>) -> Seq<char> {
    joined(joined(app_data, APP_DIRECTORY_NAME@), "configs"@)
}

/// The directory that holds the profiles.
pub fn config_directory(app_data: &str) -> (r: String)
    ensures
        r@ == config_directory_of(app_data@),
{
    join(&app_directory(app_data), "configs")
}

/// The file that holds the preferences.
pub fn preferences_path(app_data: &str) -> (r: String)
    ensures
        r@ == joined(joined(app_data@, APP_DIRECTORY_NAME@), "app-state.json"@),
{
    join(&app_directory(app_data), "app-state.json")
}

/// The file of a program version that kept a single profile.
pub fn single_config_path(app_data: &str) -> (r: String)
    ensures
        r@ == joined(joined(app_data@, APP_DIRECTORY_NAME@), "config.json"@),
{
    join(&app_directory(app_data), "config.json")
}

/// The file that holds a profile.
pub open spec fn named_config_path_of(app_data: Seq<char>, name: Seq<char>) -> Seq<char> {
    joined(config_directory_of(app_data), crate::config::sanitized_name(name) + ".json"@)
}

/// The file that holds a profile.
pub fn named_config_path(app_data: &str, name: &str) -> (r: String)
    ensures
        r@ == named_config_path_of(app_data@, name@),
{
    let file = concat(&sanitize_config_name(name), ".json");
    join(&config_directory(app_data), &file)
}

/// The directories of earlier programs whose data are taken over, the most
/// recent one first.
pub fn legacy_directories(app_data: &str) -> (r: Vec<String>)
    ensures
        r@.len() == 2,
        r@[0]@ == joined(app_data@, "KeyScheduler"@),
        r@[1]@ == joined(app_data@, "AutoKey"@),
{
    let mut out: Vec<String> = Vec::new();
    out.push(join(app_data, "KeyScheduler"));
    out.push(join(app_data, "AutoKey"));
    out
}

/// Whether a file name is that of a profile.
pub open spec fn is_profile_file(file: Seq<char>) -> bool {
    file.len() > 5 && file.subrange(file.len() - 5, file.len() as int) == ".json"@
}

/// The name of the profile that a file holds.
pub open spec fn profile_of(file: Seq<char>) -> Seq<char> {
    file.take(file.len() - 5)
}

/// The name of the profile that a file holds, if it holds one: what stands
/// before the extension `json`.
pub fn profile_name(file: &str) -> (r: Option<String>)
    ensures
        crate::config::text_of(r) == if is_profile_file(file@) {
            Some(profile_of(file@))
        } else {
            None
        },
{
    let chars = to_chars(file);
    let n: usize = chars.len();
    if n <= 5 {
        return None;
    }
    let tail = slice_chars(&chars, n - 5, n);
    if same_text(&from_chars(&tail), ".json") {
        let stem = slice_chars(&chars, 0, n - 5);
        assert(stem@ =~= file@.take(n - 5));
        Some(from_chars(&stem))
    } else {
        None
    }
}

/// Where the profile in a file of an earlier program is taken over to.
pub fn migration_destination(app_data: &str, file: &str) -> (r: Option<String>)
    ensures
        crate::config::text_of(r) == if is_profile_file(file@) {
            Some(named_config_path_of(app_data@, profile_of(file@)))
        } else {
            None
        },
{
    match profile_name(file) {
        Some(name) => Some(named_config_path(app_data, &name)),
        None => None,
    }
}

/// The path of a file with the extension `json`, with another extension.
pub open spec fn temporary_path_of(path: Seq<char>, nonce: u64) -> Seq<char> {
    path.take(path.len() - 5) + "."@ + crate::text::decimal(nonce as nat) + ".tmp"@
}

/// The file that is written before it takes the place of the one at `path`.
pub fn temporary_path_with(path: &str, nonce: u64) -> (r: String)
    requires
        is_profile_file(path@),
    ensures
        r@ == temporary_path_of(path@, nonce),
{
    let chars = to_chars(path);
    let stem = slice_chars(&chars, 0, chars.len() - 5);
    assert(stem@ =~= path@.take(path@.len() - 5));
    let head = concat(&from_chars(&stem), ".");
    concat3(&head, &format_decimal(nonce), ".tmp")
}

/// A file next to the one at `path`, with a name drawn at random.
pub fn temporary_path(path: &str) -> (r: String)
    requires
        is_profile_file(path@),
    ensures
        exists|nonce: u64| r@ == #[trigger] temporary_path_of(path@, nonce),
{
    let nonce: u64 = random_u64(0, u64::MAX);
    temporary_path_with(path, nonce)
}

/// A temporary file never has the name of a profile, so it is never listed as
/// one.
pub proof fn lemma_temporary_is_no_profile(path: Seq<char>, nonce: u64)
    requires
        is_profile_file(path),
    ensures
        !is_profile_file(temporary_path_of(path, nonce)),
{
    reveal_strlit(".json");
    reveal_strlit(".tmp");
    let temporary = temporary_path_of(path, nonce);
    assert(temporary.last() == 'p');
    assert(temporary.subrange(temporary.len() - 5, temporary.len() as int).last()
        == temporary.last());
}

/// A joined path is the path, at most one separator and the component; there is
/// always one between two names, and none is doubled.
pub proof fn lemma_joined(path: Seq<char>, component: Seq<char>)
    ensures
        path.len() > 2 && path.last() != '\\' && path.last() != '/' ==> joined(path, component)
            == path + seq!['\\'] + component,
        path.len() == 0 ==> joined(path, component) == component,
        path.len() > 0 && (path.last() == '\\' || path.last() == '/') ==> joined(path, component)
            == path + component,
        path.len() == 2 && path[1] == ':' && ('a' <= path[0] <= 'z' || 'A' <= path[0] <= 'Z')
            ==> joined(path, component) == path + component,
        path.len() == 2 && path[1] == ':' && !('a' <= path[0] <= 'z' || 'A' <= path[0] <= 'Z')
            ==> joined(path, component) == path + seq!['\\'] + component,
        path.len() == 1 && path[0] != '\\' && path[0] != '/' ==> joined(path, component) == path
            + seq!['\\'] + component,
{
    if path.len() == 0 {
        assert(path + component =~= component);
    }
}

/// Two components make two paths.
pub proof fn lemma_joined_tells_component(path: Seq<char>, a: Seq<char>, b: Seq<char>)
    ensures
        joined(path, a) == joined(path, b) ==> a == b,
{
    if joined(path, a) == joined(path, b) {
        let p = if takes_component(path) {
            path
        } else {
            path + seq!['\\']
        };
        assert(joined(path, a).len() == p.len() + a.len());
        assert(joined(path, b).len() == p.len() + b.len());
        assert(joined(path, a).subrange(p.len() as int, joined(path, a).len() as int) =~= a);
        assert(joined(path, b).subrange(p.len() as int, joined(path, b).len() as int) =~= b);
    }
}

/// Every profile has a file of its own: two names share one exactly if they are
/// kept under the same name.
pub proof fn lemma_profiles_have_files_of_their_own(
    app_data: Seq<char>,
    a: Seq<char>,
    b: Seq<char>,
)
    ensures
        named_config_path_of(app_data, a) == named_config_path_of(app_data, b)
            <==> crate::config::sanitized_name(a) == crate::config::sanitized_name(b),
{
    let (x, y) = (crate::config::sanitized_name(a), crate::config::sanitized_name(b));
    lemma_joined_tells_component(config_directory_of(app_data), x + ".json"@, y + ".json"@);
    if x + ".json"@ == y + ".json"@ {
        assert((x + ".json"@).len() == x.len() + ".json"@.len());
        assert((y + ".json"@).len() == y.len() + ".json"@.len());
        assert((x + ".json"@).take(x.len() as int) =~= x);
        assert((y + ".json"@).take(y.len() as int) =~= y);
    }
}

/// A profile is listed under the name that it is kept under: the file of a
/// profile holds just that profile, and a file that ends otherwise holds none.
pub proof fn lemma_profile_files(name: Seq<char>, file: Seq<char>)
    ensures
        name.len() > 0 ==> is_profile_file(name + ".json"@) && profile_of(name + ".json"@) == name,
        is_profile_file(file) ==> file == profile_of(file) + ".json"@ && profile_of(file).len() > 0,
        !is_profile_file(".json"@),
{
    reveal_strlit(".json");
    let full = name + ".json"@;
    if name.len() > 0 {
        assert(full.subrange(full.len() - 5, full.len() as int) =~= ".json"@);
        assert(full.take(full.len() - 5) =~= name);
    }
    if is_profile_file(file) {
        assert(file =~= profile_of(file) + file.subrange(file.len() - 5, file.len() as int));
    }
}

/// The data of the program lie in a directory of their own, the profiles in one
/// below it, each in a file that carries its name.
pub proof fn lemma_where_data_lie(app_data: Seq<char>, name: Seq<char>)
    requires
        app_data.len() > 2,
        app_data.last() != '\\',
        app_data.last() != '/',
    ensures
        config_directory_of(app_data) == app_data + "\\AutoKey-Rust\\configs"@,
        named_config_path_of(app_data, name) == app_data + "\\AutoKey-Rust\\configs\\"@
            + crate::config::sanitized_name(name) + ".json"@,
        is_profile_file(named_config_path_of(app_data, name)),
        app_data_of(Some(app_data)) == app_data,
        app_data_of(None) == "."@,
{
    reveal_strlit("AutoKey-Rust");
    reveal_strlit("configs");
    reveal_strlit("\\AutoKey-Rust\\configs");
    reveal_strlit("\\AutoKey-Rust\\configs\\");
    reveal_strlit(".json");
    assert(joined(app_data, APP_DIRECTORY_NAME@).last() == 't');
    assert(config_directory_of(app_data) =~= app_data + "\\AutoKey-Rust\\configs"@);
    assert(config_directory_of(app_data).last() == 's');
    let path = named_config_path_of(app_data, name);
    assert(path =~= app_data + "\\AutoKey-Rust\\configs\\"@ + crate::config::sanitized_name(
        name,
    ) + ".json"@);
    assert(path.subrange(path.len() - 5, path.len() as int) =~= ".json"@);
}

/// A temporary file lies beside the one whose place it takes, under a name of
/// its own for every number drawn.
pub proof fn lemma_temporary_names(path: Seq<char>, a: u64, b: u64)
    requires
        is_profile_file(path),
    ensures
        temporary_path_of(path, a).take(path.len() - 5) == path.take(path.len() - 5),
        temporary_path_of(path, a) == temporary_path_of(path, b) ==> a == b,
        temporary_path_of(path, a) != path,
{
    reveal_strlit(".tmp");
    reveal_strlit(".");
    lemma_temporary_is_no_profile(path, a);
    let stem = path.take(path.len() - 5);
    let x = temporary_path_of(path, a);
    let y = temporary_path_of(path, b);
    assert(x.take(path.len() - 5) =~= stem);
    let from = stem.len() + 1;
    assert(x.subrange(from as int, x.len() - 4) =~= crate::text::decimal(a as nat));
    assert(y.subrange(from as int, y.len() - 4) =~= crate::text::decimal(b as nat));
    crate::text::lemma_decimal_round_trip(a as nat);
    crate::text::lemma_decimal_round_trip(b as nat);
}

// ---------------------------------------------------------------------------
// The list of profiles
// ---------------------------------------------------------------------------
/// The order in which profiles are listed: the default one first, then by name
/// regardless of case.
pub open spec fn listed_before(a: Seq<char>, b: Seq<char>) -> bool {
    if (a == DEFAULT_CONFIG_NAME@) != (b == DEFAULT_CONFIG_NAME@) {
        a == DEFAULT_CONFIG_NAME@
    } else if crate::order::lowercased(a) != crate::order::lowercased(b) {
        crate::order::text_less(crate::order::lowercased(a), crate::order::lowercased(b))
    } else {
        crate::order::text_less(a, b)
    }
}

/// Of two different names one is listed before the other, and no name is listed
/// before itself.
pub proof fn lemma_listing_total(a: Seq<char>, b: Seq<char>)
    ensures
        a != b <==> listed_before(a, b) || listed_before(b, a),
        !(listed_before(a, b) && listed_before(b, a)),
{
    crate::order::lemma_text_order_total(a, b);
    crate::order::lemma_text_order_total(
        crate::order::lowercased(a),
        crate::order::lowercased(b),
    );
}

/// The order in which profiles are listed is transitive.
pub proof fn lemma_listing_transitive(a: Seq<char>, b: Seq<char>, c: Seq<char>)
    requires
        listed_before(a, b),
        listed_before(b, c),
    ensures
        listed_before(a, c),
{
    let (x, y, z) = (
        crate::order::lowercased(a),
        crate::order::lowercased(b),
        crate::order::lowercased(c),
    );
    lemma_listing_total(a, b);
    lemma_listing_total(b, c);
    lemma_listing_total(a, c);
    if crate::order::text_less(x, y) && crate::order::text_less(y, z) {
        crate::order::lemma_text_order_transitive(x, y, z);
        crate::order::lemma_text_order_total(x, z);
    }
    if crate::order::text_less(a, b) && crate::order::text_less(b, c) {
        crate::order::lemma_text_order_transitive(a, b, c);
    }
}

fn is_listed_before(a: &str, b: &str) -> (r: bool)
    ensures
        r == listed_before(a@, b@),
{
    let a_default = same_text(a, DEFAULT_CONFIG_NAME);
    let b_default = same_text(b, DEFAULT_CONFIG_NAME);
    if a_default != b_default {
        return a_default;
    }
    let x = to_lowercase(a);
    let y = to_lowercase(b);
    if same_text(&x, &y) {
        comes_before(a, b)
    } else {
        comes_before(&x, &y)
    }
}

/// The names stand in the order of listing, and none stands twice.
pub open spec fn listed_in_order(names: Seq<String>) -> bool {
    forall|i: int, j: int|
        #![trigger names[i], names[j]]
        0 <= i < j < names.len() ==> listed_before(names[i]@, names[j]@)
}

/// Whether a name is among the names.
pub open spec fn lists(names: Seq<String>, name: Seq<char>) -> bool {
    exists|i: int| 0 <= i < names.len() && (#[trigger] names[i])@ == name
}

/// Whether one of the first `n` files holds the profile `name`.
pub open spec fn held_by(files: Seq<String>, n: int, name: Seq<char>) -> bool {
    exists|i: int|
        0 <= i < n && is_profile_file((#[trigger] files[i])@) && profile_of(files[i]@) == name
}

fn insert_name(names: &mut Vec<String>, name: String)
    requires
        listed_in_order(old(names)@),
    ensures
        listed_in_order(final(names)@),
        forall|other: Seq<char>|
            #![trigger lists(final(names)@, other)]
            lists(final(names)@, other) <==> lists(old(names)@, other) || other == name@,
{
    let ghost before = names@;
    let mut k: usize = 0;
    while k < names.len() && is_listed_before(&names[k], &name)
        invariant
            k <= names@.len(),
            names@ == before,
            forall|i: int| 0 <= i < k ==> listed_before((#[trigger] names@[i])@, name@),
        decreases names@.len() - k,
    {
        k = k + 1;
    }
    if k < names.len() && same_text(&names[k], &name) {
        assert forall|other: Seq<char>| #[trigger] lists(names@, other) implies lists(before, other)
            || other == name@ by {}
        assert(names@[k as int]@ == name@);
        return ;
    }
    let ghost added = name@;
    names.insert(k, name);
    assert(names@ == before.insert(k as int, name));
    proof {
        assert forall|i: int, j: int|
            #![trigger names@[i], names@[j]]
            0 <= i < j < names@.len() implies listed_before(names@[i]@, names@[j]@) by {
            if j == k {
                assert(names@[i] == before[i]);
            } else if i == k {
                assert(names@[j] == before[j - 1]);
                lemma_listing_total(before[k as int]@, added);
                if j - 1 > k {
                    assert(listed_before(before[k as int]@, before[j - 1]@));
                    lemma_listing_transitive(added, before[k as int]@, before[j - 1]@);
                }
            } else {
                let u = if i < k {
                    i
                } else {
                    i - 1
                };
                let v = if j < k {
                    j
                } else {
                    j - 1
                };
                assert(names@[i] == before[u]);
                assert(names@[j] == before[v]);
            }
        }
        assert forall|other: Seq<char>| #[trigger] lists(names@, other) <==> (lists(before, other)
            || other == added) by {
            if lists(before, other) {
                let i = choose|i: int| 0 <= i < before.len() && (#[trigger] before[i])@ == other;
                let at = if i < k {
                    i
                } else {
                    i + 1
                };
                assert(names@[at]@ == other);
            }
            if other == added {
                assert(names@[k as int]@ == other);
            }
            if lists(names@, other) {
                let i = choose|i: int| 0 <= i < names@.len() && (#[trigger] names@[i])@ == other;
                if i < k {
                    assert(before[i]@ == other);
                } else if i > k {
                    assert(before[i - 1]@ == other);
                }
            }
        }
    }
}

/// The names of the profiles, by the names of the files in their directory.
/// The default profile is always listed, and each name once.
pub fn list_config_names(files: &Vec<String>) -> (names: Vec<String>)
    ensures
        listed_in_order(names@),
        forall|name: Seq<char>|
            #![trigger lists(names@, name)]
            lists(names@, name) <==> name == DEFAULT_CONFIG_NAME@ || held_by(
                files@,
                files@.len() as int,
                name,
            ),
{
    let mut names: Vec<String> = Vec::new();
    insert_name(&mut names, DEFAULT_CONFIG_NAME.to_owned());
    let mut i: usize = 0;
    while i < files.len()
        invariant
            i <= files@.len(),
            listed_in_order(names@),
            forall|name: Seq<char>|
                #![trigger lists(names@, name)]
                lists(names@, name) <==> name == DEFAULT_CONFIG_NAME@ || held_by(
                    files@,
                    i as int,
                    name,
                ),
        decreases files@.len() - i,
    {
        let ghost before = names@;
        let found = profile_name(&files[i]);
        let ghost stem = profile_of(files@[i as int]@);
        let holds = found.is_some();
        if let Some(name) = found {
            insert_name(&mut names, name);
        }
        proof {
            assert forall|name: Seq<char>| #[trigger] lists(names@, name) <==> (name
                == DEFAULT_CONFIG_NAME@ || held_by(files@, i + 1, name)) by {
                assert(lists(before, name) <==> (name == DEFAULT_CONFIG_NAME@ || held_by(
                    files@,
                    i as int,
                    name,
                )));
                if held_by(files@, i + 1, name) && !held_by(files@, i as int, name) {
                    assert(holds && name == stem);
                }
                if holds && name == stem {
                    assert(is_profile_file(files@[i as int]@));
                    assert(held_by(files@, i + 1, name));
                }
            }
        }
        i = i + 1;
    }
    names
}

/// The default profile is listed first.
pub proof fn lemma_default_listed_first(names: Seq<String>)
    requires
        listed_in_order(names),
        lists(names, DEFAULT_CONFIG_NAME@),
    ensures
        names.len() > 0,
        names[0]@ == DEFAULT_CONFIG_NAME@,
{
    let i = choose|i: int| 0 <= i < names.len() && (#[trigger] names[i])@ == DEFAULT_CONFIG_NAME@;
    if i > 0 {
        lemma_listing_total(names[0]@, names[i]@);
        assert(listed_before(names[0]@, names[i]@));
    }
}

/// Names are listed without regard to case, those that differ in case alone by
/// their characters, and the default one before all others.
pub proof fn lemma_listing_ignores_case(a: Seq<char>, b: Seq<char>)
    ensures
        b != DEFAULT_CONFIG_NAME@ ==> listed_before(DEFAULT_CONFIG_NAME@, b),
        a != DEFAULT_CONFIG_NAME@ && b != DEFAULT_CONFIG_NAME@ && crate::order::text_less(
            crate::order::lowercased(a),
            crate::order::lowercased(b),
        ) ==> listed_before(a, b),
        a != DEFAULT_CONFIG_NAME@ && b != DEFAULT_CONFIG_NAME@ && crate::order::lowercased(a)
            == crate::order::lowercased(b) ==> listed_before(a, b) == crate::order::text_less(a, b),
{
    crate::order::lemma_text_order_total(
        crate::order::lowercased(a),
        crate::order::lowercased(b),
    );
}

/// No profile is listed twice.
pub proof fn lemma_listed_once(names: Seq<String>, i: int, j: int)
    requires
        listed_in_order(names),
        0 <= i < j < names.len(),
    ensures
        names[i]@ != names[j]@,
{
    lemma_listing_total(names[i]@, names[j]@);
}

// ---------------------------------------------------------------------------
// Reading a profile
// ---------------------------------------------------------------------------
/// A profile as an earlier program wrote it.
#[derive(Debug)]
pub struct LegacyConfig {
    pub keys: Vec<KeyConfig>,
    pub independent_loop: bool,
    pub global_random_delay: u32,
    pub loop_mode: String,
    pub config_hotkey: String,
    pub timing_variation_level: u8,
}

impl Default for LegacyConfig {
    fn default() -> (r: LegacyConfig)
        ensures
            r.keys@.len() == 0,
            r.independent_loop,
            r.global_random_delay == 100,
            r.loop_mode@ == "循环到手动停止"@,
            r.config_hotkey@.len() == 0,
            r.timing_variation_level == 2,
    {
        LegacyConfig {
            keys: Vec::new(),
            independent_loop: true,
            global_random_delay: 100,
            loop_mode: "循环到手动停止".to_owned(),
            config_hotkey: String::new(),
            timing_variation_level: 2,
        }
    }
}

/// The decimal digits of a text, in order.
pub open spec fn digits_of(s: Seq<char>) -> Seq<char>
    decreases s.len(),
{
    if s.len() == 0 {
        Seq::empty()
    } else if crate::text::ascii_digit(s.last()) {
        digits_of(s.drop_last()).push(s.last())
    } else {
        digits_of(s.drop_last())
    }
}

/// The number of rounds that a loop mode stands for: the number that its digits
/// make, and no limit where it runs until it is stopped by hand, holds no digit
/// or a number too large.
pub open spec fn loops_of_mode(mode: Seq<char>) -> int {
    let digits = digits_of(mode);
    if crate::text::occurs_in(mode, "手动停止"@) || digits.len() == 0
        || crate::text::decimal_value(digits) > i32::MAX {
        -1
    } else {
        crate::text::decimal_value(digits) as int
    }
}

proof fn lemma_digits_step(s: Seq<char>, i: int)
    requires
        0 <= i < s.len(),
    ensures
        digits_of(s.take(i + 1)) == if crate::text::ascii_digit(s[i]) {
            digits_of(s.take(i)).push(s[i])
        } else {
            digits_of(s.take(i))
        },
{
    assert(s.take(i + 1).drop_last() =~= s.take(i));
}

/// The number of rounds that a loop mode of an earlier program stands for.
pub fn parse_legacy_loop_mode(value: &str) -> (r: i32)
    ensures
        r == loops_of_mode(value@),
{
    if contains(value, "手动停止") {
        return -1;
    }
    let chars = to_chars(value);
    let mut any: bool = false;
    let mut large: bool = false;
    let mut number: i32 = 0;
    let mut i: usize = 0;
    while i < chars.len()
        invariant
            i <= chars@.len(),
            any == (digits_of(chars@.take(i as int)).len() > 0),
            large == (crate::text::decimal_value(digits_of(chars@.take(i as int))) > i32::MAX),
            !large ==> number == crate::text::decimal_value(digits_of(chars@.take(i as int))),
        decreases chars@.len() - i,
    {
        let c: char = chars[i];
        proof {
            lemma_digits_step(chars@, i as int);
        }
        let ghost digits = digits_of(chars@.take(i as int));
        if is_ascii_digit(c) {
            assert(digits.push(c).drop_last() =~= digits);
            let digit: i32 = (c as u32 - 48) as i32;
            any = true;
            if !large {
                if number > (i32::MAX - digit) / 10 {
                    large = true;
                } else {
                    number = number * 10 + digit;
                }
            }
        }
        i = i + 1;
    }
    assert(chars@.take(i as int) =~= chars@);
    if any && !large {
        number
    } else {
        -1
    }
}

/// A limit that was written into a loop mode is read back.
pub proof fn lemma_loop_mode_round_trip(before: Seq<char>, loops: nat, after: Seq<char>)
    requires
        loops <= i32::MAX,
        forall|i: int| 0 <= i < before.len() ==> !crate::text::ascii_digit(#[trigger] before[i]),
        forall|i: int| 0 <= i < after.len() ==> !crate::text::ascii_digit(#[trigger] after[i]),
        !crate::text::occurs_in(before + crate::text::decimal(loops) + after, "手动停止"@),
    ensures
        loops_of_mode(before + crate::text::decimal(loops) + after) == loops,
{
    crate::text::lemma_decimal_round_trip(loops);
    let number = crate::text::decimal(loops);
    lemma_digits_of_none(before);
    lemma_digits_of_all(before, number);
    lemma_digits_of_rest(before + number, after);
}

proof fn lemma_digits_of_none(s: Seq<char>)
    requires
        forall|i: int| 0 <= i < s.len() ==> !crate::text::ascii_digit(#[trigger] s[i]),
    ensures
        digits_of(s) == Seq::<char>::empty(),
    decreases s.len(),
{
    if s.len() > 0 {
        assert(!crate::text::ascii_digit(s[s.len() - 1]));
        lemma_digits_of_none(s.drop_last());
    }
}

proof fn lemma_digits_of_all(head: Seq<char>, number: Seq<char>)
    requires
        digits_of(head) == Seq::<char>::empty(),
        forall|i: int| 0 <= i < number.len() ==> crate::text::ascii_digit(#[trigger] number[i]),
    ensures
        digits_of(head + number) == number,
    decreases number.len(),
{
    if number.len() > 0 {
        let s = head + number;
        assert(crate::text::ascii_digit(number[number.len() - 1]));
        lemma_digits_of_all(head, number.drop_last());
        assert(s.drop_last() =~= head + number.drop_last());
        assert(number.drop_last().push(number.last()) =~= number);
    } else {
        assert(head + number =~= head);
    }
}

proof fn lemma_digits_of_rest(head: Seq<char>, rest: Seq<char>)
    requires
        forall|i: int| 0 <= i < rest.len() ==> !crate::text::ascii_digit(#[trigger] rest[i]),
    ensures
        digits_of(head + rest) == digits_of(head),
    decreases rest.len(),
{
    if rest.len() > 0 {
        let s = head + rest;
        assert(!crate::text::ascii_digit(rest[rest.len() - 1]));
        lemma_digits_of_rest(head, rest.drop_last());
        assert(s.drop_last() =~= head + rest.drop_last());
    } else {
        assert(head + rest =~= head);
    }
}

/// The profile that one of an earlier program stands for, before its values are
/// brought into range.
pub open spec fn upgraded(legacy: LegacyConfig) -> crate::config::ConfigModel {
    crate::config::ConfigModel {
        keys: crate::config::key_models(legacy.keys@),
        independent_loop: legacy.independent_loop,
        global_random_delay: legacy.global_random_delay,
        max_loops: loops_of_mode(legacy.loop_mode@) as i32,
        timing_variation_level: legacy.timing_variation_level,
        config_hotkey: legacy.config_hotkey@,
    }
}

/// How the contents of a profile's file are laid out.
#[derive(Debug, Clone, Copy, PartialEq, Eq, Structural)]
pub enum ConfigFormat {
    /// As the program writes it.
    Current,
    /// As an earlier program wrote it.
    Legacy,
}

/// Whether the text is JSON, and if so, whether it is an object with the given
/// member.
pub uninterp spec fn json_member(text: Seq<char>, member: Seq<char>) -> Option<bool>;

/// Whether a text is JSON, and if so, whether it is an object with the given
/// member.
///
/// Parses with `serde_json::from_str` into a `serde_json::Value` and asks that
/// value for the member.  The outcome depends on the text and the member alone;
/// the contract names it and says no more of the grammar.
#[verifier::external_body]
fn has_json_member(text: &str, member: &str) -> (r: Option<bool>)
    ensures
        r == json_member(text@, member@),
{
    match serde_json::from_str::<serde_json::Value>(text) {
        Ok(value) => Some(value.get(member).is_some()),
        Err(_) => None,
    }
}

/// The layout of a file, by whether it is JSON and has the list `Keys`.
pub fn format_by_member(has_keys: Option<bool>) -> (r: Option<ConfigFormat>)
    ensures
        r == match has_keys {
            None => None::<ConfigFormat>,
            Some(true) => Some(ConfigFormat::Legacy),
            Some(false) => Some(ConfigFormat::Current),
        },
{
    match has_keys {
        None => None,
        Some(true) => Some(ConfigFormat::Legacy),
        Some(false) => Some(ConfigFormat::Current),
    }
}

/// The layout of a file with the given contents; none if they are not JSON.
pub fn config_format(content: &str) -> (r: Option<ConfigFormat>)
    ensures
        r == match json_member(content@, "Keys"@) {
            None => None::<ConfigFormat>,
            Some(true) => Some(ConfigFormat::Legacy),
            Some(false) => Some(ConfigFormat::Current),
        },
{
    format_by_member(has_json_member(content, "Keys"))
}

/// What was read from a profile's file.
#[derive(Debug)]
pub enum StoredConfig {
    Current(Config),
    Legacy(LegacyConfig),
    /// The file cannot be read or holds no profile, for the given reason.
    Unreadable(String),
}

/// The profile that was read, if one was.
pub open spec fn stored_profile(stored: StoredConfig) -> Result<
    crate::config::ConfigModel,
    Seq<char>,
> {
    match stored {
        StoredConfig::Current(config) => Ok(crate::config::sanitized(config@)),
        StoredConfig::Legacy(legacy) => Ok(crate::config::sanitized(upgraded(legacy))),
        StoredConfig::Unreadable(reason) => Err(reason@),
    }
}

/// The result of reading a profile, by its content.
pub open spec fn outcome(r: Result<Config, String>) -> Result<
    crate::config::ConfigModel,
    Seq<char>,
> {
    match r {
        Ok(config) => Ok(config@),
        Err(reason) => Err(reason@),
    }
}

/// The profile that a file holds, with its values brought into range.
pub fn read_config(stored: StoredConfig) -> (r: Result<Config, String>)
    ensures
        outcome(r) == stored_profile(stored),
{
    let mut config = match stored {
        StoredConfig::Current(config) => config,
        StoredConfig::Legacy(legacy) => Config {
            keys: legacy.keys,
            independent_loop: legacy.independent_loop,
            global_random_delay: legacy.global_random_delay,
            max_loops: parse_legacy_loop_mode(&legacy.loop_mode),
            timing_variation_level: legacy.timing_variation_level,
            config_hotkey: legacy.config_hotkey,
        },
        StoredConfig::Unreadable(reason) => {
            return Err(reason);
        },
    };
    config.sanitize();
    Ok(config)
}

/// The message for a profile that does not exist.
pub open spec fn missing_message(name: Seq<char>) -> Seq<char> {
    "配置 ["@ + crate::config::sanitized_name(name) + "] 不存在"@
}

fn missing_profile(name: &str) -> (r: String)
    ensures
        r@ == missing_message(name@),
{
    concat3("配置 [", &sanitize_config_name(name), "] 不存在")
}

/// The file that is read for a profile.
pub fn load_path(app_data: &str, name: &str) -> (r: String)
    ensures
        r@ == named_config_path_of(app_data@, crate::config::sanitized_name(name@)),
{
    named_config_path(app_data, &sanitize_config_name(name))
}

/// Loads a profile, given what its file holds; nothing where there is no file.
pub fn load_named_config(name: &str, stored: Option<StoredConfig>) -> (r: Result<Config, String>)
    ensures
        outcome(r) == match stored {
            None => Err(missing_message(name@)),
            Some(stored) => stored_profile(stored),
        },
{
    match stored {
        None => Err(missing_profile(name)),
        Some(stored) => read_config(stored),
    }
}

/// Puts the loaded profile in place of the current one, which stays as it is
/// where loading failed.
pub fn load_into(name: &str, stored: Option<StoredConfig>, config: &mut Config) -> (r: Result<
    (),
    String,
>)
    ensures
        match stored {
            None => {
                &&& r is Err && r->Err_0@ == missing_message(name@)
                &&& final(config)@ == old(config)@
            },
            Some(stored) => match stored_profile(stored) {
                Err(reason) => r is Err && r->Err_0@ == reason && final(config)@ == old(config)@,
                Ok(profile) => r is Ok && final(config)@ == profile,
            },
        },
{
    match load_named_config(name, stored) {
        Ok(loaded) => {
            *config = loaded;
            Ok(())
        },
        Err(reason) => Err(reason),
    }
}

/// Brings a profile into range and gives the name and the content to save it
/// under.
pub fn save_named_config(name: &str, config: &mut Config) -> (r: (String, Config))
    ensures
        r.0@ == crate::config::sanitized_name(name@),
        final(config)@ == crate::config::sanitized(old(config)@),
        r.1@ == final(config)@,
{
    config.sanitize();
    (sanitize_config_name(name), config.clone())
}

/// Whether a profile may be deleted: not the default one, and none that has no
/// file.
pub fn delete_named_config(name: &str, exists: bool) -> (r: Result<String, String>)
    ensures
        match r {
            Ok(kept_name) => kept_name@ == crate::config::sanitized_name(name@) && kept_name@
                != DEFAULT_CONFIG_NAME@ && exists,
            Err(reason) => if crate::config::sanitized_name(name@) == DEFAULT_CONFIG_NAME@ {
                reason@ == "默认配置不能删除"@
            } else {
                !exists && reason@ == missing_message(name@)
            },
        },
{
    let name_kept = sanitize_config_name(name);
    if same_text(&name_kept, DEFAULT_CONFIG_NAME) {
        Err("默认配置不能删除".to_owned())
    } else if !exists {
        Err(missing_profile(name))
    } else {
        Ok(name_kept)
    }
}

/// The first profile: that of an earlier version, where it can be read, or a new
/// one.
pub fn first_profile(previous: Option<StoredConfig>) -> (r: Config)
    ensures
        r@ == match previous {
            Some(stored) => match stored_profile(stored) {
                Ok(profile) => profile,
                Err(_) => crate::config::default_config(),
            },
            None => crate::config::default_config(),
        },
{
    match previous {
        Some(stored) => match read_config(stored) {
            Ok(config) => config,
            Err(_) => Config::default(),
        },
        None => Config::default(),
    }
}

/// The profile that is written when one of an earlier program is taken over, by
/// whether a profile of that name `exists` and what the file of the earlier
/// program holds: none where there is one already, or where the file cannot be
/// read.
pub fn migrated(exists: bool, stored: Option<StoredConfig>) -> (r: Option<Config>)
    ensures
        exists ==> r is None,
        !exists ==> match stored {
            Some(stored) => match stored_profile(stored) {
                Ok(profile) => r is Some && r->Some_0@ == profile,
                Err(_) => r is None,
            },
            None => r is None,
        },
{
    if exists {
        return None;
    }
    match stored {
        Some(stored) => match read_config(stored) {
            Ok(config) => Some(config),
            Err(_) => None,
        },
        None => None,
    }
}

/// What is read back of a saved profile is what was saved, as long as no name
/// was cut off right after white space.
pub proof fn lemma_saved_profile_reads_back(config: crate::config::ConfigModel, stored: Config)
    requires
        stored@ == crate::config::sanitized(config),
        crate::config::tidy(stored@.config_hotkey),
        forall|i: int|
            0 <= i < crate::config::KEY_SLOT_COUNT ==> crate::config::tidy(
                (#[trigger] stored@.keys[i]).key_name,
            ),
    ensures
        stored_profile(StoredConfig::Current(stored)) == Ok::<
            crate::config::ConfigModel,
            Seq<char>,
        >(stored@),
{
    crate::config::lemma_sanitize_idempotent(config);
}

/// A profile of an earlier program is taken over with all that it holds: whether
/// its keys run on their own, its keys in their rows, its range, its level of
/// variation and its shortcut, brought into range, and as many rounds as its loop
/// mode stands for.
pub proof fn lemma_legacy_profile_is_taken_over(legacy: LegacyConfig, row: int)
    ensures
        stored_profile(StoredConfig::Legacy(legacy)) is Ok,
        ({
            let p = stored_profile(StoredConfig::Legacy(legacy))->Ok_0;
            let loops = loops_of_mode(legacy.loop_mode@);
            let shortcut = crate::text::trimmed(legacy.config_hotkey@);
            &&& p.independent_loop == legacy.independent_loop
            &&& p.keys.len() == 12
            &&& 0 <= row < 12 && row < legacy.keys@.len() ==> p.keys[row]
                == crate::config::sanitized_key(legacy.keys@[row]@)
            &&& legacy.keys@.len() <= row < 12 ==> p.keys[row] == crate::config::unset_key()
            &&& legacy.global_random_delay <= 3_600_000 ==> p.global_random_delay
                == legacy.global_random_delay
            &&& legacy.global_random_delay > 3_600_000 ==> p.global_random_delay == 3_600_000
            &&& legacy.timing_variation_level <= 2 ==> p.timing_variation_level
                == legacy.timing_variation_level
            &&& legacy.timing_variation_level > 2 ==> p.timing_variation_level == 2
            &&& loops <= 1_000_000 ==> p.max_loops == loops
            &&& loops > 1_000_000 ==> p.max_loops == 1_000_000
            &&& shortcut.len() <= 64 ==> p.config_hotkey == shortcut
            &&& shortcut.len() > 64 ==> p.config_hotkey == shortcut.take(64)
        }),
{
    crate::config::lemma_sanitized_profile(upgraded(legacy), row);
}

/// Whatever layout a profile was read from, it is in range; two files that hold
/// the same values, each in its layout, hold the same profile; and what cannot
/// be read is told by its reason alone.
pub proof fn lemma_layouts_agree(legacy: LegacyConfig, current: Config, reason: String)
    requires
        current@.keys == crate::config::key_models(legacy.keys@),
        current@.independent_loop == legacy.independent_loop,
        current@.global_random_delay == legacy.global_random_delay,
        current@.max_loops == loops_of_mode(legacy.loop_mode@),
        current@.timing_variation_level == legacy.timing_variation_level,
        current@.config_hotkey == legacy.config_hotkey@,
    ensures
        stored_profile(StoredConfig::Legacy(legacy)) == stored_profile(
            StoredConfig::Current(current),
        ),
        crate::config::in_range(stored_profile(StoredConfig::Current(current))->Ok_0),
        stored_profile(StoredConfig::Unreadable(reason)) == Err::<
            crate::config::ConfigModel,
            Seq<char>,
        >(reason@),
{
    assert(upgraded(legacy) =~= current@);
    crate::config::lemma_sanitize_in_range(current@);
}

proof fn lemma_no_digits(s: Seq<char>)
    ensures
        digits_of(s).len() == 0 <==> forall|i: int|
            0 <= i < s.len() ==> !crate::text::ascii_digit(#[trigger] s[i]),
    decreases s.len(),
{
    if s.len() > 0 {
        let rest = s.drop_last();
        lemma_no_digits(rest);
        if forall|i: int| 0 <= i < s.len() ==> !crate::text::ascii_digit(#[trigger] s[i]) {
            assert(!crate::text::ascii_digit(s[s.len() - 1]));
            assert forall|i: int| 0 <= i < rest.len() implies !crate::text::ascii_digit(
                #[trigger] rest[i],
            ) by {
                assert(rest[i] == s[i]);
            }
        }
        if digits_of(s).len() == 0 {
            assert forall|i: int| 0 <= i < s.len() implies !crate::text::ascii_digit(
                #[trigger] s[i],
            ) by {
                if i < rest.len() {
                    assert(rest[i] == s[i]);
                }
            }
        }
    }
}

/// A loop mode has no limit where it holds no digit or says that it runs until
/// it is stopped by hand, whatever else it says; no other mode gives a negative
/// number but one beyond what can be counted.
pub proof fn lemma_loop_mode_without_limit(mode: Seq<char>, before: Seq<char>, after: Seq<char>)
    ensures
        loops_of_mode(before + "手动停止"@ + after) == -1,
        (forall|i: int| 0 <= i < mode.len() ==> !crate::text::ascii_digit(#[trigger] mode[i]))
            ==> loops_of_mode(mode) == -1,
        -1 <= loops_of_mode(mode) <= i32::MAX,
{
    crate::text::lemma_occurrence(before, "手动停止"@, after, mode);
    lemma_no_digits(mode);
}

/// The message for a profile that does not exist names it as it is kept, so two
/// profiles share one exactly if they are kept under the same name.
pub proof fn lemma_missing_message(name: Seq<char>, other: Seq<char>)
    ensures
        crate::text::occurs_in(missing_message(name), crate::config::sanitized_name(name)),
        missing_message(name) == missing_message(other) <==> crate::config::sanitized_name(name)
            == crate::config::sanitized_name(other),
{
    let (x, y) = (crate::config::sanitized_name(name), crate::config::sanitized_name(other));
    let (head, tail) = ("配置 ["@, "] 不存在"@);
    crate::text::lemma_occurrence(head, x, tail, name);
    let (a, b) = (missing_message(name), missing_message(other));
    assert(a.len() == head.len() + x.len() + tail.len());
    assert(b.len() == head.len() + y.len() + tail.len());
    assert(a.subrange(head.len() as int, a.len() - tail.len()) =~= x);
    assert(b.subrange(head.len() as int, b.len() - tail.len()) =~= y);
}

// ---------------------------------------------------------------------------
// Preferences
// ---------------------------------------------------------------------------
/// The bit pattern above which a single-precision number without its sign is
/// not finite.
pub const INFINITE_BITS: u32 = 0x7f80_0000;

/// The bit pattern of a negative zero: the least one with the sign set.
pub const SIGN_BIT: u32 = 0x8000_0000;

/// The bit patterns of 1040, 820 and 7680: the width of a new window, and the
/// least and the greatest width.
pub const DEFAULT_WIDTH_BITS: u32 = 0x4482_0000;

pub const MIN_WIDTH_BITS: u32 = 0x444d_0000;

pub const MAX_WIDTH_BITS: u32 = 0x45f0_0000;

/// The bit patterns of 700, 560 and 4320: the height of a new window, and the
/// least and the greatest height.
pub const DEFAULT_HEIGHT_BITS: u32 = 0x442f_0000;

pub const MIN_HEIGHT_BITS: u32 = 0x440c_0000;

pub const MAX_HEIGHT_BITS: u32 = 0x4587_0000;

/// What is remembered between two runs of the program.
///
/// The size of the window is held by the bit patterns of two single-precision
/// numbers.  Patterns without a sign are ordered as the numbers are.
#[derive(Debug, PartialEq, Eq)]
pub struct AppPreferences {
    pub selected_config: String,
    pub cycle_config_hotkey: String,
    pub window_width_bits: u32,
    pub window_height_bits: u32,
}

/// The mathematical content of [`AppPreferences`].
#[verifier::ext_equal]
pub struct PreferencesModel {
    pub selected_config: Seq<char>,
    pub cycle_config_hotkey: Seq<char>,
    pub window_width_bits: u32,
    pub window_height_bits: u32,
}

impl View for AppPreferences {
    type V = PreferencesModel;

    open spec fn view(&self) -> PreferencesModel {
        PreferencesModel {
            selected_config: self.selected_config@,
            cycle_config_hotkey: self.cycle_config_hotkey@,
            window_width_bits: self.window_width_bits,
            window_height_bits: self.window_height_bits,
        }
    }
}

/// The preferences of a first run.
pub open spec fn default_preferences() -> PreferencesModel {
    PreferencesModel {
        selected_config: DEFAULT_CONFIG_NAME@,
        cycle_config_hotkey: DEFAULT_CYCLE_HOTKEY@,
        window_width_bits: DEFAULT_WIDTH_BITS,
        window_height_bits: DEFAULT_HEIGHT_BITS,
    }
}

impl Default for AppPreferences {
    fn default() -> (r: AppPreferences)
        ensures
            r@ == default_preferences(),
    {
        AppPreferences {
            selected_config: DEFAULT_CONFIG_NAME.to_owned(),
            cycle_config_hotkey: DEFAULT_CYCLE_HOTKEY.to_owned(),
            window_width_bits: DEFAULT_WIDTH_BITS,
            window_height_bits: DEFAULT_HEIGHT_BITS,
        }
    }
}

impl Clone for AppPreferences {
    fn clone(&self) -> (r: AppPreferences)
        ensures
            r@ == self@,
    {
        AppPreferences {
            selected_config: self.selected_config.clone(),
            cycle_config_hotkey: self.cycle_config_hotkey.clone(),
            window_width_bits: self.window_width_bits,
            window_height_bits: self.window_height_bits,
        }
    }
}

/// Whether two preferences are the same.
pub fn same_preferences(a: &AppPreferences, b: &AppPreferences) -> (r: bool)
    ensures
        r == (a@ == b@),
{
    a.window_width_bits == b.window_width_bits && a.window_height_bits == b.window_height_bits
        && same_text(&a.selected_config, &b.selected_config) && same_text(
        &a.cycle_config_hotkey,
        &b.cycle_config_hotkey,
    )
}

/// A bit pattern without its sign.
pub open spec fn magnitude(bits: u32) -> u32 {
    if bits >= SIGN_BIT {
        (bits - SIGN_BIT) as u32
    } else {
        bits
    }
}

/// A number between `low` and `high`, both of them positive: the fallback for
/// one that is not finite, and the nearest one for one that lies outside.
pub open spec fn sanitized_size(bits: u32, fallback: u32, low: u32, high: u32) -> u32 {
    if magnitude(bits) >= INFINITE_BITS {
        fallback
    } else if bits >= SIGN_BIT || bits < low {
        low
    } else if bits > high {
        high
    } else {
        bits
    }
}

fn sanitize_size(bits: u32, fallback: u32, low: u32, high: u32) -> (r: u32)
    ensures
        r == sanitized_size(bits, fallback, low, high),
{
    let size: u32 = if bits >= SIGN_BIT {
        bits - SIGN_BIT
    } else {
        bits
    };
    if size >= INFINITE_BITS {
        fallback
    } else if bits >= SIGN_BIT || bits < low {
        low
    } else if bits > high {
        high
    } else {
        bits
    }
}

/// Preferences with their values brought into range.
pub open spec fn sanitized_preferences(p: PreferencesModel) -> PreferencesModel {
    PreferencesModel {
        selected_config: crate::config::sanitized_name(p.selected_config),
        cycle_config_hotkey: crate::text::prefix(crate::text::trimmed(p.cycle_config_hotkey), 64),
        window_width_bits: sanitized_size(
            p.window_width_bits,
            DEFAULT_WIDTH_BITS,
            MIN_WIDTH_BITS,
            MAX_WIDTH_BITS,
        ),
        window_height_bits: sanitized_size(
            p.window_height_bits,
            DEFAULT_HEIGHT_BITS,
            MIN_HEIGHT_BITS,
            MAX_HEIGHT_BITS,
        ),
    }
}

impl AppPreferences {
    /// Brings the preferences into range.
    pub fn sanitize(&mut self)
        ensures
            final(self)@ == sanitized_preferences(old(self)@),
    {
        self.selected_config = sanitize_config_name(&self.selected_config);
        self.cycle_config_hotkey = trim_and_take(&self.cycle_config_hotkey, 64);
        self.window_width_bits = sanitize_size(
            self.window_width_bits,
            DEFAULT_WIDTH_BITS,
            MIN_WIDTH_BITS,
            MAX_WIDTH_BITS,
        );
        self.window_height_bits = sanitize_size(
            self.window_height_bits,
            DEFAULT_HEIGHT_BITS,
            MIN_HEIGHT_BITS,
            MAX_HEIGHT_BITS,
        );
    }
}

/// Whatever was stored, the window opens with a size between the least and the
/// greatest one, and a safe name of a profile is selected.
pub proof fn lemma_preferences_in_range(p: PreferencesModel)
    ensures
        MIN_WIDTH_BITS <= sanitized_preferences(p).window_width_bits <= MAX_WIDTH_BITS,
        MIN_HEIGHT_BITS <= sanitized_preferences(p).window_height_bits <= MAX_HEIGHT_BITS,
        crate::config::safe_name(sanitized_preferences(p).selected_config),
        sanitized_preferences(p).cycle_config_hotkey.len() <= 64,
{
    crate::config::lemma_sanitized_name_is_safe(p.selected_config);
}

/// A size that can be shown is kept, and any other takes the nearest one that
/// can; what is no number takes that of a new window.  By their bit patterns a
/// width lies between 820 and 7680 and a height between 560 and 4320.
pub proof fn lemma_sanitized_size(bits: u32, fallback: u32, low: u32, high: u32)
    requires
        low <= high < 0x7f80_0000,
    ensures
        low <= bits <= high ==> sanitized_size(bits, fallback, low, high) == bits,
        bits < low ==> sanitized_size(bits, fallback, low, high) == low,
        high < bits < 0x7f80_0000 ==> sanitized_size(bits, fallback, low, high) == high,
        0x7f80_0000 <= bits < 0x8000_0000 ==> sanitized_size(bits, fallback, low, high) == fallback,
        0x8000_0000 <= bits < 0xff80_0000 ==> sanitized_size(bits, fallback, low, high) == low,
        bits >= 0xff80_0000 ==> sanitized_size(bits, fallback, low, high) == fallback,
{
}

/// Preferences that are in range stay as they are, each value for itself: no
/// value changes with another.
pub proof fn lemma_preferences_are_kept(p: PreferencesModel)
    ensures
        ({
            let r = sanitized_preferences(p);
            let shortcut = crate::text::trimmed(p.cycle_config_hotkey);
            &&& r.selected_config == crate::config::sanitized_name(p.selected_config)
            &&& shortcut.len() <= 64 ==> r.cycle_config_hotkey == shortcut
            &&& shortcut.len() > 64 ==> r.cycle_config_hotkey == shortcut.take(64)
            &&& 0x444d_0000 <= p.window_width_bits <= 0x45f0_0000 ==> r.window_width_bits
                == p.window_width_bits
            &&& 0x440c_0000 <= p.window_height_bits <= 0x4587_0000 ==> r.window_height_bits
                == p.window_height_bits
            &&& p.window_width_bits < 0x444d_0000 ==> r.window_width_bits == 0x444d_0000
            &&& p.window_height_bits < 0x440c_0000 ==> r.window_height_bits == 0x440c_0000
            &&& 0x45f0_0000 < p.window_width_bits < 0x7f80_0000 ==> r.window_width_bits
                == 0x45f0_0000
            &&& 0x4587_0000 < p.window_height_bits < 0x7f80_0000 ==> r.window_height_bits
                == 0x4587_0000
            &&& 0x7f80_0000 <= p.window_width_bits < 0x8000_0000 ==> r.window_width_bits
                == 0x4482_0000
            &&& 0x7f80_0000 <= p.window_height_bits < 0x8000_0000 ==> r.window_height_bits
                == 0x442f_0000
        }),
        default_preferences().selected_config == "默认"@,
        default_preferences().cycle_config_hotkey == "Ctrl+Z"@,
        default_preferences().window_width_bits == 0x4482_0000,
        default_preferences().window_height_bits == 0x442f_0000,
{
}

/// The preferences to start with, given those that were stored.
pub fn load_preferences(stored: Option<AppPreferences>) -> (r: AppPreferences)
    ensures
        r@ == sanitized_preferences(
            match stored {
                Some(preferences) => preferences@,
                None => default_preferences(),
            },
        ),
{
    let mut preferences = match stored {
        Some(preferences) => preferences,
        None => AppPreferences::default(),
    };
    preferences.sanitize();
    preferences
}

/// The preferences to write.
pub fn save_preferences(preferences: &AppPreferences) -> (r: AppPreferences)
    ensures
        r@ == sanitized_preferences(preferences@),
{
    let mut out = preferences.clone();
    out.sanitize();
    out
}

/// The size of the window that an earlier program kept in its profiles.
pub struct LegacyWindowSize {
    pub width_bits: Option<u32>,
    pub height_bits: Option<u32>,
}

/// The file in which an earlier program kept the profile that was selected last.
pub fn legacy_selected_path(directory: &str, preferences: &AppPreferences) -> (r: String)
    ensures
        r@ == joined(
            joined(directory@, "configs"@),
            preferences.selected_config@ + ".json"@,
        ),
{
    join(&join(directory, "configs"), &concat(&preferences.selected_config, ".json"))
}

/// The preferences that are taken over from an earlier program: the given ones,
/// which [`load_preferences`] brought into range, as they are; where the selected
/// profile could be read, with the size of the window from it and brought into
/// range anew.
pub fn migrate_preferences(
    preferences: &AppPreferences,
    size: Option<LegacyWindowSize>,
) -> (r: AppPreferences)
    ensures
        r@ == match size {
            None => preferences@,
            Some(size) => sanitized_preferences(
                PreferencesModel {
                    window_width_bits: match size.width_bits {
                        Some(bits) => bits,
                        None => preferences@.window_width_bits,
                    },
                    window_height_bits: match size.height_bits {
                        Some(bits) => bits,
                        None => preferences@.window_height_bits,
                    },
                    ..preferences@
                },
            ),
        },
{
    let mut out = preferences.clone();
    if let Some(size) = size {
        if let Some(bits) = size.width_bits {
            out.window_width_bits = bits;
        }
        if let Some(bits) = size.height_bits {
            out.window_height_bits = bits;
        }
        out.sanitize();
    }
    out
}

/// The profiles listed are the default, which comes first, and those that a file
/// holds, each once and in order.
pub proof fn lemma_listing(files: &Vec<String>, names: Vec<String>, i: int, j: int)
    requires
        call_ensures(list_config_names, (files,), names),
    ensures
        names@.len() > 0 && names@[0]@ == "默认"@,
        0 <= i < files@.len() && is_profile_file(files@[i]@) ==> exists|k: int|
            0 <= k < names@.len() && (#[trigger] names@[k])@ == profile_of(files@[i]@),
        0 < i < names@.len() ==> exists|k: int|
            0 <= k < files@.len() && is_profile_file((#[trigger] files@[k])@) && profile_of(
                files@[k]@,
            ) == names@[i]@,
        0 <= i < j < names@.len() ==> names@[i]@ != names@[j]@ && listed_before(
            names@[i]@,
            names@[j]@,
        ),
{
    assert(lists(names@, DEFAULT_CONFIG_NAME@));
    lemma_default_listed_first(names@);
    if 0 <= i < files@.len() && is_profile_file(files@[i]@) {
        assert(held_by(files@, files@.len() as int, profile_of(files@[i]@)));
        assert(lists(names@, profile_of(files@[i]@)));
    }
    if 0 <= i < j < names@.len() {
        lemma_listed_once(names@, i, j);
    }
    if 0 < i < names@.len() {
        assert(lists(names@, names@[i]@));
        lemma_listed_once(names@, 0, i);
        assert(held_by(files@, files@.len() as int, names@[i]@));
    }
}

/// A profile can be deleted exactly if it is stored and is not the default one; it
/// is deleted where it is kept.
pub proof fn lemma_deletion(name: &str, exists: bool, r: Result<String, String>)
    requires
        call_ensures(delete_named_config, (name, exists), r),
    ensures
        ({
            let kept = crate::config::sanitized_name(name@);
            &&& r is Ok <==> exists && kept != "默认"@
            &&& r matches Ok(deleted) ==> deleted@ == kept
            &&& r matches Err(reason) ==> if kept == "默认"@ {
                reason@ == "默认配置不能删除"@
            } else {
                reason@ == missing_message(name@)
            }
        }),
{
}

/// A profile that cannot be read leaves the edited one as it is; one that can be
/// read takes its place.  What is loaded either way is the same.
pub proof fn lemma_loading(
    name: &str,
    stored: Option<StoredConfig>,
    config: &mut Config,
    r: Result<(), String>,
    loaded: Result<Config, String>,
)
    requires
        call_ensures(load_into, (name, stored, config), r),
        call_ensures(load_named_config, (name, stored), loaded),
    ensures
        r is Ok <==> loaded is Ok,
        r is Err ==> final(config)@ == old(config)@ && r->Err_0@ == loaded->Err_0@,
        r is Ok ==> final(config)@ == loaded->Ok_0@,
        stored is None ==> r is Err && r->Err_0@ == missing_message(name@),
{
}

/// A profile of an earlier directory is taken over as it would be loaded, if it can
/// be read and none of that name is there; one that is there is never replaced.
/// The first profile is that of before, if it can be read, and else a new one.
pub proof fn lemma_taking_over(
    exists: bool,
    stored: Option<StoredConfig>,
    r: Option<Config>,
    first: Config,
)
    requires
        call_ensures(migrated, (exists, stored), r),
        call_ensures(first_profile, (stored,), first),
    ensures
        exists ==> r is None,
        !exists ==> (r is Some <==> stored is Some && stored_profile(stored->Some_0) is Ok),
        r matches Some(config) ==> Ok::<_, Seq<char>>(config@) == stored_profile(stored->Some_0)
            && config@ == first@,
        stored is None || stored_profile(stored->Some_0) is Err ==> first@
            == crate::config::default_config(),
{
}

/// The size of an earlier window is taken over where it is known; without one the
/// preferences stay as they are, and the rest of them is kept in any case.
pub proof fn lemma_window_size_is_taken_over(
    preferences: &AppPreferences,
    size: Option<LegacyWindowSize>,
    r: AppPreferences,
    kept: AppPreferences,
)
    requires
        call_ensures(migrate_preferences, (preferences, size), r),
        call_ensures(save_preferences, (preferences,), kept),
    ensures
        size is None ==> r@ == preferences@,
        size is Some && size->Some_0.width_bits is None ==> r@.window_width_bits
            == kept@.window_width_bits,
        size is Some && size->Some_0.height_bits is None ==> r@.window_height_bits
            == kept@.window_height_bits,
        size is Some ==> r@ == (PreferencesModel {
            window_width_bits: r@.window_width_bits,
            window_height_bits: r@.window_height_bits,
            ..kept@
        }),
        size is Some && size->Some_0.width_bits == Some(preferences@.window_width_bits)
            && size->Some_0.height_bits == Some(preferences@.window_height_bits) ==> r@ == kept@,
{
}

/// A profile is written as it is then edited, under a name that can be kept.
pub proof fn lemma_saved_as_edited(name: &str, config: &mut Config, r: (String, Config))
    requires
        call_ensures(save_named_config, (name, config), r),
    ensures
        r.1@ == final(config)@,
        r.0@ == crate::config::sanitized_name(name@),
        crate::config::sanitized(old(config)@) == old(config)@ ==> final(config)@ == old(config)@,
{
}

/// A file is of the earlier layout just if it is an object with a member `Keys`.
pub proof fn lemma_layout_of_file(content: &str, r: Option<ConfigFormat>)
    requires
        call_ensures(config_format, (content,), r),
    ensures
        r is None <==> json_member(content@, "Keys"@) is None,
        r == Some(ConfigFormat::Legacy) <==> json_member(content@, "Keys"@) == Some(true),
        r == Some(ConfigFormat::Current) <==> json_member(content@, "Keys"@) == Some(false),
{
}

} // verus!
