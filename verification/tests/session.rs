use autokey_rust::config::Config;
use autokey_rust::session::{
    initial_profile, is_due, next_profile, Choice, SaveReason, Session,
};
use autokey_rust::store::{AppPreferences, StoredConfig};

fn names(list: &[&str]) -> Vec<String> {
    list.iter().map(|name| name.to_string()).collect()
}

fn profile(max_loops: i32) -> Config {
    let mut config = Config::default();
    config.max_loops = max_loops;
    config
}

fn session() -> Session {
    Session::new(Config::default(), AppPreferences::default(), String::new())
}

#[test]
fn switching_goes_round() {
    let list = names(&["默认", "a", "b"]);
    assert_eq!(next_profile(&list, "默认"), Some(1));
    assert_eq!(next_profile(&list, "b"), Some(0));
    assert_eq!(next_profile(&list, "x"), None);
    assert_eq!(next_profile(&Vec::new(), "默认"), None);
    let mut selected = "a".to_owned();
    let mut visited = Vec::new();
    for _ in 0..3 {
        selected = list[next_profile(&list, &selected).unwrap()].clone();
        visited.push(selected.clone());
    }
    assert_eq!(visited, names(&["b", "默认", "a"]));
}

#[test]
fn intervals_are_kept() {
    assert!(is_due(None, 0, 300));
    assert!(!is_due(Some(1000), 1299, 300));
    assert!(is_due(Some(1000), 1300, 300));
    assert!(!is_due(Some(1000), 900, 300));
}

#[test]
fn changes_are_saved_once() {
    let mut session = session();
    assert!(session.begin_save().is_none());
    session.config.max_loops = 5;
    session.config.keys[0].base_delay = 1;
    let pending = session.begin_save().unwrap();
    assert_eq!(pending.name, "默认");
    assert_eq!(pending.content.keys[0].base_delay, 20);
    session.finish_save(pending, Some("磁盘已满".to_owned()), SaveReason::Autosave);
    assert_eq!(session.status, "自动保存失败: 磁盘已满");
    let pending = session.begin_save().unwrap();
    session.finish_save(pending, Some("磁盘已满".to_owned()), SaveReason::BeforeSwitch);
    assert_eq!(session.status, "保存失败: 磁盘已满");
    let pending = session.begin_save().unwrap();
    session.finish_save(pending, None, SaveReason::Autosave);
    assert!(session.begin_save().is_none());
    assert_eq!(session.last_saved_config.max_loops, 5);
}

#[test]
fn preferences_are_saved_once() {
    let mut session = session();
    assert!(session.begin_save_preferences().is_none());
    session.preferences.selected_config = " con ".to_owned();
    let content = session.begin_save_preferences().unwrap();
    assert_eq!(content.selected_config, "_con");
    session.finish_save_preferences(Some("拒绝".to_owned()));
    assert_eq!(session.status, "保存偏好失败: 拒绝");
    assert!(session.begin_save_preferences().is_some());
    session.finish_save_preferences(None);
    assert!(session.begin_save_preferences().is_none());
}

#[test]
fn profiles_are_chosen() {
    let mut session = session();
    session.config.max_loops = 2;
    assert!(!session.choose_profile("x", None, Choice::Next));
    assert_eq!(session.status, "切换配置失败: 配置 [x] 不存在");
    assert_eq!(session.config.max_loops, 2);
    assert!(!session.choose_profile("x", None, Choice::Named));
    assert_eq!(session.status, "加载失败: 配置 [x] 不存在");
    assert!(!session.choose_profile("x", None, Choice::Listed));
    assert_eq!(session.status, "切换失败: 配置 [x] 不存在");

    let stored = StoredConfig::Current(profile(9));
    assert!(session.choose_profile("x", Some(stored), Choice::Next));
    assert_eq!(session.status, "已切换到配置 [x]");
    assert_eq!(session.config.max_loops, 9);
    assert_eq!(session.preferences.selected_config, "x");
    assert_eq!(session.profile_name_edit, "x");
    assert!(session.begin_save().is_none());

    session.profile_name_edit = "y".to_owned();
    let stored = StoredConfig::Current(profile(8));
    assert!(session.choose_profile("y", Some(stored), Choice::Named));
    assert_eq!(session.status, "已加载配置 [y]");
    session.status = "旧".to_owned();
    let stored = StoredConfig::Current(profile(7));
    assert!(session.choose_profile("z", Some(stored), Choice::Listed));
    assert_eq!(session.status, "旧");
    assert_eq!(session.profile_name_edit, "z");
}

#[test]
fn profiles_are_saved_under_a_name() {
    let mut session = session();
    session.profile_name_edit = "a/b".to_owned();
    session.config.max_loops = 3;
    let (name, content) = session.begin_save_as();
    assert_eq!(name, "a_b");
    assert_eq!(content.max_loops, 3);
    session.finish_save_as(&name, Some("拒绝".to_owned()));
    assert_eq!(session.status, "保存失败: 拒绝");
    assert_eq!(session.preferences.selected_config, "默认");
    session.finish_save_as(&name, None);
    assert_eq!(session.status, "配置已保存");
    assert_eq!(session.preferences.selected_config, "a_b");
    assert_eq!(session.profile_name_edit, "a_b");
    assert!(session.begin_save().is_none());
}

#[test]
fn the_default_profile_takes_the_place_of_a_deleted_one() {
    let mut session = session();
    session.profile_name_edit = "x".to_owned();
    session.finish_delete(Some("默认配置不能删除".to_owned()), None);
    assert_eq!(session.status, "删除失败: 默认配置不能删除");
    session.finish_delete(None, None);
    assert_eq!(session.status, "已删除配置 [x]");
    assert_eq!(session.profile_name_edit, "x");
    session.preferences.selected_config = "x".to_owned();
    session.finish_delete(None, Some(StoredConfig::Current(profile(4))));
    assert_eq!(session.preferences.selected_config, "默认");
    assert_eq!(session.profile_name_edit, "默认");
    assert_eq!(session.config.max_loops, 4);
    assert_eq!(session.status, "已删除配置 [x]");
}

#[test]
fn the_program_begins_with_some_profile() {
    let loaded = initial_profile("a", Some(StoredConfig::Current(profile(1))), None);
    assert!(!loaded.fell_back);
    assert_eq!(loaded.config.max_loops, 1);
    assert_eq!(loaded.status, "配置 [a] 已加载");
    let fallback = initial_profile("a", None, Some(StoredConfig::Current(profile(2))));
    assert!(fallback.fell_back);
    assert_eq!(fallback.config.max_loops, 2);
    assert_eq!(fallback.status, "无法加载配置, 已切换到默认 配置 [a] 不存在");
    let broken = StoredConfig::Unreadable("坏".to_owned());
    let fresh = initial_profile("a", None, Some(broken));
    assert!(fresh.fell_back);
    assert_eq!(fresh.config, Config::default());
    assert_eq!(fresh.status, "无法加载任何配置: 坏");
}
