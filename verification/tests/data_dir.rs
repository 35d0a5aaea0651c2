use featherai::data_dir::{
    android_files_dir, available, default_data_dir, join, legacy_data_dirs, migration_notes,
    migration_sources, os_data_dir, prepare_data_dir, DirEnv, MigrationNote, TargetOs,
};

fn env(
    data_dir: Option<&str>,
    home: Option<&str>,
    xdg: Option<&str>,
    local: Option<&str>,
    app: Option<&str>,
) -> DirEnv {
    DirEnv {
        data_dir: data_dir.map(|s| s.to_string()),
        home: home.map(|s| s.to_string()),
        xdg_data_home: xdg.map(|s| s.to_string()),
        local_app_data: local.map(|s| s.to_string()),
        app_data: app.map(|s| s.to_string()),
    }
}

/// El data dir de Android ubica el directorio del usuario por uid.
#[test]
fn el_data_dir_de_android_sale_del_uid() {
    assert_eq!(
        std::path::PathBuf::from(android_files_dir("com.featherai.app", 10045)),
        std::path::PathBuf::from("/data/user/0/com.featherai.app/files"),
        "uid del usuario 0 (emulador, teléfono personal)"
    );
    assert_eq!(
        std::path::PathBuf::from(android_files_dir("com.featherai.app", 1010045)),
        std::path::PathBuf::from("/data/user/10/com.featherai.app/files"),
        "uid de un perfil de trabajo (userId 10, mismo appId)"
    );
}

#[test]
fn explicit_data_dir_wins_and_is_trimmed() {
    let e = env(Some("  /srv/feather  "), Some("/home/ana"), None, None, None);
    assert_eq!(default_data_dir(TargetOs::OtherUnix, &e), "/srv/feather");
    let (dir, legacy) = prepare_data_dir(TargetOs::OtherUnix, &e);
    assert_eq!(dir, "/srv/feather");
    assert!(legacy.is_empty(), "no migration into an explicit dir");
}

#[test]
fn blank_variables_count_as_missing() {
    let e = env(Some("   "), Some(""), None, None, None);
    assert_eq!(default_data_dir(TargetOs::OtherUnix, &e), "./featherai-data");
    assert_eq!(os_data_dir(TargetOs::OtherUnix, &e), None);
}

#[test]
fn unix_prefers_an_absolute_xdg_data_home() {
    let e = env(None, Some("/home/ana"), Some("/data/xdg"), None, None);
    assert_eq!(
        os_data_dir(TargetOs::OtherUnix, &e).as_deref(),
        Some("/data/xdg/featherai")
    );
    let relative = env(None, Some("/home/ana"), Some("rel/xdg"), None, None);
    assert_eq!(
        os_data_dir(TargetOs::OtherUnix, &relative).as_deref(),
        Some("/home/ana/.local/share/featherai")
    );
}

#[test]
fn macos_uses_application_support() {
    let e = env(None, Some("/Users/ana/"), None, None, None);
    assert_eq!(
        os_data_dir(TargetOs::MacOs, &e).as_deref(),
        Some("/Users/ana/Library/Application Support/featherai")
    );
}

#[test]
fn windows_uses_local_app_data_even_with_home() {
    let e = env(
        None,
        Some("C:\\Users\\ana"),
        None,
        Some("C:\\Users\\ana\\AppData\\Local"),
        Some("C:\\Users\\ana\\AppData\\Roaming"),
    );
    assert_eq!(
        os_data_dir(TargetOs::Windows, &e).as_deref(),
        Some("C:\\Users\\ana\\AppData\\Local\\featherai")
    );
    let roaming_only = env(None, None, None, None, Some("C:\\Roaming"));
    assert_eq!(
        os_data_dir(TargetOs::Windows, &roaming_only).as_deref(),
        Some("C:\\Roaming\\featherai")
    );
}

#[test]
fn legacy_dirs_in_old_precedence() {
    let e = env(None, Some("/home/ana"), None, None, Some("/appdata"));
    assert_eq!(
        legacy_data_dirs(TargetOs::OtherUnix, &e),
        vec![
            "/home/ana/.local/share/featherai".to_string(),
            "/appdata/featherai".to_string()
        ]
    );
    let (dir, legacy) = prepare_data_dir(TargetOs::OtherUnix, &e);
    assert_eq!(dir, "/home/ana/.local/share/featherai");
    assert_eq!(legacy.len(), 2);
}

#[test]
fn join_adds_a_separator_only_when_needed() {
    assert_eq!(join(TargetOs::OtherUnix, "/a", "b"), "/a/b");
    assert_eq!(join(TargetOs::OtherUnix, "/a/", "b"), "/a/b");
    assert_eq!(join(TargetOs::OtherUnix, "", "b"), "b");
    assert_eq!(join(TargetOs::Windows, "C:", "b"), "C:b");
    assert_eq!(join(TargetOs::Windows, "C:\\x", "b"), "C:\\x\\b");
}

#[test]
fn migration_picks_the_first_dir_with_a_base() {
    let cands = vec![
        ("/old/empty".to_string(), false),
        ("/new".to_string(), true),
        ("/old/a".to_string(), true),
        ("/old/b".to_string(), true),
    ];
    assert_eq!(
        migration_sources("/new", false, &cands),
        vec!["/old/a".to_string(), "/old/b".to_string()]
    );
    assert!(migration_sources("/new", true, &cands).is_empty());
}

#[test]
fn migration_notes_report_what_happened() {
    let notes = migration_notes(
        vec!["/a".to_string(), "/b".to_string()],
        3,
        vec!["featherai.log".to_string()],
        vec![],
    );
    assert_eq!(notes.len(), 3);
    assert!(matches!(&notes[0], MigrationNote::SeveralFound { found } if found.len() == 2));
    assert!(matches!(&notes[1], MigrationNote::NotOverwritten { names } if names[0] == "featherai.log"));
    assert!(matches!(notes[2], MigrationNote::Moved { count: 3 }));
    let failed = migration_notes(vec!["/a".to_string()], 0, vec![], vec!["x: denied".to_string()]);
    assert_eq!(failed.len(), 1);
    assert!(matches!(&failed[0], MigrationNote::LeftBehind { failures } if failures.len() == 1));
}

#[test]
fn the_local_store_is_available() {
    assert!(available());
}

#[test]
fn android_data_dir_goes_by_the_uid() {
    let e = env(None, Some("/home/ana"), None, None, None);
    assert_eq!(
        os_data_dir(TargetOs::Android { uid: 10045 }, &e).as_deref(),
        Some("/data/user/0/com.featherai.app/files")
    );
    assert_eq!(
        default_data_dir(TargetOs::Android { uid: 1010045 }, &e),
        "/data/user/10/com.featherai.app/files"
    );
}
