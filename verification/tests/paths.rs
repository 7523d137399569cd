use widgitron::config_paths::{is_program_files_dir, seed_config_files, use_portable_config, list_corrupt_config_files};

#[test]
fn program_files_installs_are_recognized_in_any_case() {
    assert!(is_program_files_dir("C:\\PROGRAM FILES\\Widgitron"));
    assert!(is_program_files_dir("c:\\program files (x86)\\Widgitron"));
    assert!(!is_program_files_dir("D:\\Tools\\Widgitron"));
}

#[test]
fn portable_settings_need_a_writable_folder() {
    assert!(!use_portable_config(true, true, true, false));
    assert!(!use_portable_config(false, false, true, false));
    assert!(use_portable_config(false, true, true, true));
    assert!(use_portable_config(false, true, false, false));
    assert!(!use_portable_config(false, true, false, true));
    assert_eq!(seed_config_files().len(), 5);
    assert_eq!(seed_config_files()[0], "app_config.json");
}

#[test]
fn lists_corrupt_backups_in_byte_order() {
    let names = vec![
        "paper_deadline.json".to_string(),
        "widget_themes.corrupt.json".to_string(),
        "app_config.corrupt.json".to_string(),
        "Zeta.corrupt.json".to_string(),
        "".to_string(),
        "notes.corrupt.json.bak".to_string(),
    ];
    assert_eq!(
        list_corrupt_config_files(names),
        vec![
            "Zeta.corrupt.json".to_string(),
            "app_config.corrupt.json".to_string(),
            "widget_themes.corrupt.json".to_string(),
        ]
    );
    assert!(list_corrupt_config_files(Vec::new()).is_empty());
}
