use autokey_rust::obfuscate::{mask_key, obfstr, random_thread_name, thread_name};

#[test]
fn obfuscate_obfstr_roundtrip() {
    let s = obfstr("AutoKey");
    assert_eq!(s, "AutoKey");

    let empty = obfstr("");
    assert_eq!(empty, "");

    let chinese = obfstr("按键调度器");
    assert_eq!(chinese, "按键调度器");
}

#[test]
fn random_thread_name_varies() {
    let names: std::collections::HashSet<String> = (0..20).map(|_| random_thread_name()).collect();
    assert!(names.len() > 1);
}

#[test]
fn scheduler_thread_names_are_put_together() {
    assert_eq!(thread_name(0, 7), "worker-7");
    assert_eq!(thread_name(9, 999), "service-999");
    assert_eq!(mask_key(7), 0xBA);
    let name = random_thread_name();
    let (word, number) = name.split_once('-').unwrap();
    assert!(!word.is_empty());
    assert!(number.parse::<u32>().unwrap() < 1000);
}
