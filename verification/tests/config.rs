use autokey_rust::config::{
    sanitize_config_name, Config, KeyConfig, DEFAULT_CONFIG_NAME, KEY_SLOT_COUNT, MAX_DELAY_MS,
    MIN_DELAY_MS,
};

#[test]
fn sanitizes_invalid_values_without_disabling_rows() {
    let mut config = Config {
        keys: vec![KeyConfig {
            enabled: true,
            vk_code: 0,
            key_name: "  ".to_owned(),
            base_delay: 1,
            random_range: u32::MAX,
        }],
        global_random_delay: u32::MAX,
        max_loops: i32::MAX,
        timing_variation_level: 9,
        independent_loop: true,
        config_hotkey: String::new(),
    };

    config.sanitize();

    assert_eq!(config.keys.len(), KEY_SLOT_COUNT);
    assert!(config.keys[0].enabled);
    assert_eq!(config.keys[0].base_delay, MIN_DELAY_MS);
    assert_eq!(config.keys[0].random_range, MAX_DELAY_MS);
    assert_eq!(config.timing_variation_level, 2);
    assert_eq!(config.max_loops, 1_000_000);
    assert!(config.validation_error().is_some());
}

#[test]
fn sanitizes_profile_names() {
    assert_eq!(sanitize_config_name(" demo:*? "), "demo___");
    assert_eq!(sanitize_config_name("   "), DEFAULT_CONFIG_NAME);
    assert_eq!(sanitize_config_name("demo... "), "demo");
    assert_eq!(sanitize_config_name("CON"), "_CON");
    assert_eq!(sanitize_config_name("lpt1.notes"), "_lpt1.notes");
}

#[test]
fn profile_names_are_safe_and_stable() {
    assert_eq!(sanitize_config_name(".."), DEFAULT_CONFIG_NAME);
    assert_eq!(sanitize_config_name(""), DEFAULT_CONFIG_NAME);
    assert_eq!(sanitize_config_name("a\u{1}b\\c/d\"e|f<g>h"), "a_b_c_d_e_f_g_h");
    assert_eq!(sanitize_config_name("com0"), "com0");
    assert_eq!(sanitize_config_name("com10"), "com10");
    assert_eq!(sanitize_config_name("Aux.txt"), "_Aux.txt");
    assert_eq!(sanitize_config_name("prn"), "_prn");
    assert_eq!(sanitize_config_name("NUL .x"), "NUL .x");
    let long = "x".repeat(70);
    assert_eq!(sanitize_config_name(&long), "x".repeat(64));
    for name in ["demo", "_CON", "默认", "a.b"] {
        assert_eq!(sanitize_config_name(name), name);
    }
}

#[test]
fn new_profile_has_four_enabled_rows() {
    let config = Config::default();
    assert_eq!(config.keys.len(), 12);
    for (index, key) in config.keys.iter().enumerate() {
        assert_eq!(key.enabled, index < 4);
        assert_eq!(key.vk_code, 0);
        assert_eq!(key.key_name, "未设置");
        assert_eq!(key.base_delay, 1000);
        assert_eq!(key.random_range, 100);
    }
    assert!(config.independent_loop);
    assert_eq!(config.global_random_delay, 100);
    assert_eq!(config.max_loops, -1);
    assert_eq!(config.timing_variation_level, 2);
    assert_eq!(config.config_hotkey, "");
    let mut sanitized = config.clone();
    sanitized.sanitize();
    assert_eq!(sanitized, config);
}

#[test]
fn validation_names_the_first_row_without_a_key() {
    let mut config = Config::default();
    assert_eq!(config.validation_error().unwrap(), "请至少设置并启用一个按键");
    config.keys[1].vk_code = 0x41;
    assert_eq!(config.validation_error().unwrap(), "第 1 行已启用，但尚未设置按键");
    config.keys[0].enabled = false;
    assert_eq!(config.validation_error().unwrap(), "第 3 行已启用，但尚未设置按键");
    config.keys[2].enabled = false;
    config.keys[3].vk_code = 255;
    assert_eq!(config.validation_error().unwrap(), "第 4 行已启用，但尚未设置按键");
    config.keys[3].vk_code = 254;
    assert_eq!(config.validation_error(), None);
}

#[test]
fn sanitizing_cuts_and_fills_the_rows() {
    let mut config = Config::default();
    for _ in 0..5 {
        config.keys.push(KeyConfig::default());
    }
    config.keys[0].key_name = format!("  {}  ", "k".repeat(30));
    config.keys[0].vk_code = 300;
    config.keys[0].base_delay = u32::MAX;
    config.max_loops = -7;
    config.config_hotkey = " Ctrl+1 ".to_owned();
    config.sanitize();
    assert_eq!(config.keys.len(), 12);
    assert_eq!(config.keys[0].key_name, "k".repeat(24));
    assert_eq!(config.keys[0].vk_code, 0);
    assert_eq!(config.keys[0].base_delay, 3_600_000);
    assert_eq!(config.max_loops, -1);
    assert_eq!(config.config_hotkey, "Ctrl+1");
    let once = config.clone();
    config.sanitize();
    assert_eq!(config, once);
}
