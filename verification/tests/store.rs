use autokey_rust::config::{Config, KeyConfig, DEFAULT_CONFIG_NAME};
use autokey_rust::store::{
    app_data_directory, app_directory, config_directory, config_format, delete_named_config,
    first_profile, format_by_member, join, legacy_directories, legacy_selected_path,
    list_config_names, load_into, load_named_config, load_path, load_preferences,
    migrate_preferences, migrated, migration_destination, named_config_path,
    parse_legacy_loop_mode, preferences_path, profile_name, save_named_config, save_preferences, single_config_path,
    temporary_path, temporary_path_with, AppPreferences, ConfigFormat, LegacyConfig,
    LegacyWindowSize, StoredConfig,
};

#[test]
fn parses_legacy_loop_modes() {
    assert_eq!(parse_legacy_loop_mode("循环到手动停止"), -1);
    assert_eq!(parse_legacy_loop_mode("循环10次"), 10);
}

#[test]
fn odd_loop_modes_mean_no_limit() {
    assert_eq!(parse_legacy_loop_mode(""), -1);
    assert_eq!(parse_legacy_loop_mode("循环"), -1);
    assert_eq!(parse_legacy_loop_mode("2147483647"), i32::MAX);
    assert_eq!(parse_legacy_loop_mode("2147483648"), -1);
    assert_eq!(parse_legacy_loop_mode("99999999999999999999999"), -1);
    assert_eq!(parse_legacy_loop_mode("1a2b3"), 123);
    assert_eq!(parse_legacy_loop_mode("007"), 7);
    assert_eq!(parse_legacy_loop_mode("手动停止 5"), -1);
}

#[test]
fn sanitizes_preferences() {
    let mut preferences = AppPreferences {
        selected_config: " demo? ".to_owned(),
        cycle_config_hotkey: "  Ctrl+1  ".to_owned(),
        window_width_bits: f32::NAN.to_bits(),
        window_height_bits: 10.0f32.to_bits(),
    };
    preferences.sanitize();
    assert_eq!(preferences.selected_config, "demo_");
    assert_eq!(preferences.cycle_config_hotkey, "Ctrl+1");
    assert_eq!(f32::from_bits(preferences.window_width_bits), 1040.0);
    assert_eq!(f32::from_bits(preferences.window_height_bits), 560.0);
}

#[test]
fn window_sizes_are_clamped_as_numbers() {
    let cases: [f32; 14] = [
        f32::NAN,
        -f32::NAN,
        f32::INFINITY,
        f32::NEG_INFINITY,
        0.0,
        -0.0,
        -5.0,
        819.9,
        820.0,
        1234.5,
        7680.0,
        7680.1,
        1e30,
        1e-40,
    ];
    for value in cases {
        let mut preferences = AppPreferences::default();
        preferences.window_width_bits = value.to_bits();
        preferences.window_height_bits = value.to_bits();
        preferences.sanitize();
        let width = if value.is_finite() { value } else { 1040.0 };
        let height = if value.is_finite() { value } else { 700.0 };
        assert_eq!(
            f32::from_bits(preferences.window_width_bits),
            width.clamp(820.0, 7680.0)
        );
        assert_eq!(
            f32::from_bits(preferences.window_height_bits),
            height.clamp(560.0, 4320.0)
        );
    }
}

#[test]
fn preferences_start_from_defaults() {
    let fresh = load_preferences(None);
    assert_eq!(fresh, AppPreferences::default());
    assert_eq!(fresh.selected_config, DEFAULT_CONFIG_NAME);
    assert_eq!(fresh.cycle_config_hotkey, "Ctrl+Z");
    let mut odd = AppPreferences::default();
    odd.selected_config = "con".to_owned();
    assert_eq!(save_preferences(&odd).selected_config, "_con");
    assert_eq!(odd.selected_config, "con");
    assert_eq!(load_preferences(Some(odd)).selected_config, "_con");
}

#[test]
fn data_lies_under_the_program_directory() {
    let data = r"C:\Users\me\AppData\Roaming";
    assert_eq!(app_directory(data), r"C:\Users\me\AppData\Roaming\AutoKey-Rust");
    assert_eq!(
        config_directory(data),
        r"C:\Users\me\AppData\Roaming\AutoKey-Rust\configs"
    );
    assert_eq!(
        preferences_path(data),
        r"C:\Users\me\AppData\Roaming\AutoKey-Rust\app-state.json"
    );
    assert_eq!(
        single_config_path(data),
        r"C:\Users\me\AppData\Roaming\AutoKey-Rust\config.json"
    );
    assert_eq!(
        named_config_path(data, "a:b"),
        r"C:\Users\me\AppData\Roaming\AutoKey-Rust\configs\a_b.json"
    );
    assert_eq!(load_path(data, " x "), named_config_path(data, "x"));
    assert_eq!(
        legacy_directories(data),
        vec![
            r"C:\Users\me\AppData\Roaming\KeyScheduler".to_owned(),
            r"C:\Users\me\AppData\Roaming\AutoKey".to_owned()
        ]
    );
    assert_eq!(app_data_directory(None), ".");
    assert_eq!(app_data_directory(Some("D:\\x".to_owned())), "D:\\x");
    assert_eq!(join("C:\\", "a"), "C:\\a");
    assert_eq!(join("C:", "a"), "C:a");
    assert_eq!(join("1:", "a"), "1:\\a");
    assert_eq!(join("", "a"), "a");
    assert_eq!(join("a/", "b"), "a/b");
    assert_eq!(join(".", "b"), ".\\b");
}

#[test]
fn profile_files_end_with_json() {
    assert_eq!(profile_name("demo.json"), Some("demo".to_owned()));
    assert_eq!(profile_name("a.b.json"), Some("a.b".to_owned()));
    assert_eq!(profile_name(".json"), None);
    assert_eq!(profile_name("demo.JSON"), None);
    assert_eq!(profile_name("demo.tmp"), None);
    assert_eq!(
        migration_destination("D:", "x?.json").unwrap(),
        named_config_path("D:", "x?")
    );
    assert_eq!(migration_destination("D:", "x.txt"), None);
}

#[test]
fn temporary_files_are_no_profiles() {
    let path = named_config_path(r"C:\d", "demo");
    assert_eq!(
        temporary_path_with(&path, 42),
        r"C:\d\AutoKey-Rust\configs\demo.42.tmp"
    );
    let drawn = temporary_path(&path);
    assert!(drawn.starts_with(r"C:\d\AutoKey-Rust\configs\demo."));
    assert!(drawn.ends_with(".tmp"));
    assert_ne!(drawn, path);
    let number = &drawn[r"C:\d\AutoKey-Rust\configs\demo.".len()..drawn.len() - 4];
    assert!(number.parse::<u64>().is_ok());
    assert_eq!(profile_name(&drawn), None);
}

#[test]
fn profiles_are_listed_by_name_with_the_default_first() {
    let files: Vec<String> = ["zeta.json", "Alpha.json", "beta.json", "ALPHA.json", "x.txt"]
        .iter()
        .map(|name| name.to_string())
        .collect();
    let names = list_config_names(&files);
    assert_eq!(names, vec!["默认", "ALPHA", "Alpha", "beta", "zeta"]);
    let twice: Vec<String> = vec!["默认.json".to_owned(), "a.json".to_owned(), "a.json".to_owned()];
    assert_eq!(list_config_names(&twice), vec!["默认", "a"]);
    assert_eq!(list_config_names(&Vec::new()), vec!["默认"]);
}

#[test]
fn listing_folds_case_beyond_ascii() {
    let files: Vec<String> = vec!["ÄB.json".to_owned(), "äa.json".to_owned()];
    assert_eq!(list_config_names(&files), vec!["默认", "äa", "ÄB"]);
}

#[test]
fn layout_is_told_by_the_list_of_keys() {
    assert_eq!(config_format("{\"Keys\": []}"), Some(ConfigFormat::Legacy));
    assert_eq!(config_format("{\"keys\": []}"), Some(ConfigFormat::Current));
    assert_eq!(config_format("[1, 2]"), Some(ConfigFormat::Current));
    assert_eq!(config_format("{\"Keys\": "), None);
    assert_eq!(config_format(""), None);
    assert_eq!(format_by_member(None), None);
    assert_eq!(format_by_member(Some(true)), Some(ConfigFormat::Legacy));
    assert_eq!(format_by_member(Some(false)), Some(ConfigFormat::Current));
}

#[test]
fn legacy_profiles_are_upgraded() {
    let legacy = LegacyConfig {
        keys: vec![KeyConfig {
            enabled: true,
            vk_code: 0x41,
            key_name: "A".to_owned(),
            base_delay: 5,
            random_range: 7,
        }],
        independent_loop: false,
        global_random_delay: 3,
        loop_mode: "循环25次".to_owned(),
        config_hotkey: "F5".to_owned(),
        timing_variation_level: 1,
    };
    let config = load_named_config("x", Some(StoredConfig::Legacy(legacy))).unwrap();
    assert_eq!(config.keys.len(), 12);
    assert_eq!(config.keys[0].vk_code, 0x41);
    assert_eq!(config.keys[0].base_delay, 20);
    assert_eq!(config.max_loops, 25);
    assert!(!config.independent_loop);
    assert_eq!(config.global_random_delay, 3);
    assert_eq!(config.config_hotkey, "F5");
    assert_eq!(config.timing_variation_level, 1);
    let fallback = LegacyConfig::default();
    assert_eq!(parse_legacy_loop_mode(&fallback.loop_mode), -1);
    assert!(fallback.keys.is_empty());
}

#[test]
fn missing_and_unreadable_profiles_are_reported() {
    assert_eq!(load_named_config("a:b", None).unwrap_err(), "配置 [a_b] 不存在");
    let stored = StoredConfig::Unreadable("无法读取".to_owned());
    assert_eq!(load_named_config("x", Some(stored)).unwrap_err(), "无法读取");
    let mut config = Config::default();
    config.max_loops = 7;
    let before = config.clone();
    assert!(load_into("x", None, &mut config).is_err());
    assert_eq!(config, before);
    let mut other = Config::default();
    other.max_loops = 9;
    assert!(load_into("x", Some(StoredConfig::Current(other)), &mut config).is_ok());
    assert_eq!(config.max_loops, 9);
}

#[test]
fn an_existing_profile_is_kept() {
    let stored = |max_loops: i32| {
        Some(StoredConfig::Current(Config {
            max_loops,
            ..Config::default()
        }))
    };
    assert_eq!(migrated(false, stored(9)).unwrap().max_loops, 9);
    assert_eq!(migrated(true, stored(9)), None);
    assert_eq!(migrated(false, None), None);
    let unreadable = StoredConfig::Unreadable("无法读取".to_owned());
    assert_eq!(migrated(false, Some(unreadable)), None);
}

#[test]
fn saved_profiles_read_back() {
    let mut config = Config::default();
    config.keys[2].base_delay = 1;
    let (name, content) = save_named_config(" nul ", &mut config);
    assert_eq!(name, "_nul");
    assert_eq!(content, config);
    assert_eq!(config.keys[2].base_delay, 20);
    let back = load_named_config(&name, Some(StoredConfig::Current(content))).unwrap();
    assert_eq!(back, config);
}

#[test]
fn the_default_profile_cannot_be_deleted() {
    assert_eq!(delete_named_config("默认", true).unwrap_err(), "默认配置不能删除");
    assert_eq!(delete_named_config("  ", true).unwrap_err(), "默认配置不能删除");
    assert_eq!(delete_named_config("x?", false).unwrap_err(), "配置 [x_] 不存在");
    assert_eq!(delete_named_config("x?", true).unwrap(), "x_");
}

#[test]
fn the_first_profile_comes_from_an_earlier_version() {
    assert_eq!(first_profile(None), Config::default());
    let broken = StoredConfig::Unreadable("x".to_owned());
    assert_eq!(first_profile(Some(broken)), Config::default());
    let mut earlier = Config::default();
    earlier.max_loops = 3;
    assert_eq!(first_profile(Some(StoredConfig::Current(earlier))).max_loops, 3);
}

#[test]
fn window_size_is_taken_over() {
    let preferences = AppPreferences::default();
    assert_eq!(
        legacy_selected_path(r"C:\AutoKey", &preferences),
        r"C:\AutoKey\configs\默认.json"
    );
    assert_eq!(migrate_preferences(&preferences, None), preferences);
    let size = LegacyWindowSize {
        width_bits: Some(900.0f32.to_bits()),
        height_bits: None,
    };
    let migrated = migrate_preferences(&preferences, Some(size));
    assert_eq!(f32::from_bits(migrated.window_width_bits), 900.0);
    assert_eq!(f32::from_bits(migrated.window_height_bits), 700.0);
    let odd = LegacyWindowSize {
        width_bits: None,
        height_bits: Some(1.0f32.to_bits()),
    };
    let clamped = migrate_preferences(&preferences, Some(odd));
    assert_eq!(f32::from_bits(clamped.window_height_bits), 560.0);
}
