use autokey_rust::paths::{file_name, is_drive_at, is_separator, parent_directory};

#[test]
fn parents_are_found() {
    assert_eq!(parent_directory(r"C:\Apps\x.exe"), r"C:\Apps");
    assert_eq!(parent_directory(r"C:\x.exe"), r"C:\");
    assert_eq!(parent_directory("x.exe"), "");
    assert_eq!(parent_directory("C:x.exe"), "C:");
    assert_eq!(parent_directory("1:x.exe"), "");
    assert_eq!(parent_directory("/x"), "/");
    assert_eq!(parent_directory("a/b/c"), "a/b");
}

#[test]
fn roots_have_no_parent() {
    for path in ["", r"C:\", "C:", "/", r"\\server\share", r"\\server\share\", r"\\?\C:\", r"\\.\COM1"] {
        assert_eq!(parent_directory(path), "");
        assert_eq!(file_name(path), None);
    }
}

#[test]
fn parents_keep_prefix_and_root() {
    assert_eq!(parent_directory(r"\\server\share\x.exe"), r"\\server\share\");
    assert_eq!(parent_directory(r"\\server\share\a\x.exe"), r"\\server\share\a");
    assert_eq!(parent_directory("//server/share/x.exe"), "//server/share/");
    assert_eq!(parent_directory(r"\\?\UNC\server\share\x.exe"), r"\\?\UNC\server\share\");
    assert_eq!(parent_directory(r"\\?\C:\Apps\x.exe"), r"\\?\C:\Apps");
    assert_eq!(parent_directory(r"\\?\C:\x.exe"), r"\\?\C:\");
    assert_eq!(parent_directory(r"\\?\pictures\x.exe"), r"\\?\pictures\");
    assert_eq!(parent_directory(r"\\.\COM1\x"), r"\\.\COM1\");
    assert_eq!(parent_directory(r"\\server"), r"\");
}

#[test]
fn empty_components_and_dots_do_not_count() {
    assert_eq!(parent_directory(r"C:\Apps\\x.exe"), r"C:\Apps");
    assert_eq!(parent_directory(r"C:\Apps\.\x.exe\"), r"C:\Apps");
    assert_eq!(parent_directory(r"C:\Apps\x.exe\.\\"), r"C:\Apps");
    assert_eq!(parent_directory("./x"), ".");
    assert_eq!(parent_directory("."), "");
    assert_eq!(parent_directory("C:."), "C:");
    assert_eq!(parent_directory(r"a\.."), "a");
    assert_eq!(parent_directory(r"\\?\C:\Apps\.\x"), r"\\?\C:\Apps\.");
    assert_eq!(parent_directory(r"\\?\C:\Apps/x"), r"\\?\C:\");
}

#[test]
fn file_names_are_last_components() {
    assert_eq!(file_name(r"C:\Apps\x.exe").as_deref(), Some("x.exe"));
    assert_eq!(file_name("C:x.exe").as_deref(), Some("x.exe"));
    assert_eq!(file_name("1:x.exe").as_deref(), Some("1:x.exe"));
    assert_eq!(file_name(r"C:\Apps\x.exe\.\").as_deref(), Some("x.exe"));
    assert_eq!(file_name(r"\\?\C:\Apps/x").as_deref(), Some("Apps/x"));
    assert_eq!(file_name(r"\\server\x.exe"), None);
    assert_eq!(file_name(r"a\.."), None);
    assert_eq!(file_name(r"\\?\C:\."), None);
    assert_eq!(file_name("."), None);
    assert_eq!(file_name(r".\x").as_deref(), Some("x"));
}

#[test]
fn drives_have_a_letter() {
    let chars: Vec<char> = "1:C:".chars().collect();
    assert!(!is_drive_at(&chars, 0));
    assert!(is_drive_at(&chars, 2));
    assert!(!is_drive_at(&chars, 3));
    assert!(is_separator('/', false) && !is_separator('/', true) && is_separator('\\', true));
}
