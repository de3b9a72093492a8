use secretstash::config::{
    choose_db_path, clear_after_seconds, config_path, data_dir, db_path, new_vault_path,
    resolve_secure_tmp_dir, restrict_db_permissions, salt_file_content, salt_path_for_db,
    session_path, Config,
};

#[test]
fn salt_path_for_db_replaces_extension() {
    let db = "/home/user/.local/share/stash/stash.db";
    assert_eq!(salt_path_for_db(db), "/home/user/.local/share/stash/stash.salt");
}

#[test]
fn salt_path_without_extension_gets_one() {
    assert_eq!(salt_path_for_db("/tmp/vault"), "/tmp/vault.salt");
}

#[test]
fn new_vault_path_is_sibling() {
    assert_eq!(new_vault_path("/x/stash.db"), "/x/stash.db.new");
}

#[test]
fn paths_in_data_dir() {
    assert_eq!(data_dir("/home/u/.local/share"), "/home/u/.local/share/stash");
    assert_eq!(db_path("/d/stash"), "/d/stash/stash.db");
    assert_eq!(db_path("/d/stash/"), "/d/stash/stash.db");
    assert_eq!(session_path("/d/stash"), "/d/stash/.session");
    assert_eq!(config_path("/home/u/.config"), "/home/u/.config/stash/stash.toml");
}

#[test]
fn db_path_resolution_order() {
    let d = || "default.db".to_string();
    assert_eq!(
        choose_db_path(Some("a".into()), Some("b".into()), Some("c".into()), d()),
        "a"
    );
    assert_eq!(choose_db_path(None, Some("b".into()), Some("c".into()), d()), "b");
    assert_eq!(choose_db_path(None, None, Some("c".into()), d()), "c");
    assert_eq!(choose_db_path(None, None, None, d()), "default.db");
}

#[test]
fn clear_after_resolution_order() {
    assert_eq!(clear_after_seconds(Some(5), Some(30)), 5);
    assert_eq!(clear_after_seconds(None, Some(30)), 30);
    assert_eq!(clear_after_seconds(None, None), 0);
}

#[test]
fn default_config_is_empty() {
    let c = Config::default();
    assert!(c.db.is_none());
    assert!(c.session_timeout_minutes.is_none());
    assert!(c.clipboard_clear_seconds.is_none());
    assert!(c.browser.is_none());
}

#[test]
fn salt_file_has_trailing_newline() {
    assert_eq!(salt_file_content("abc"), "abc\n");
}

#[test]
fn restricted_files_are_vault_and_sidecars() {
    assert_eq!(
        restrict_db_permissions("/v/stash.db"),
        vec!["/v/stash.db", "/v/stash.db-wal", "/v/stash.db-shm"]
    );
}

#[test]
fn resolve_secure_tmp_dir_prefers_existing_xdg_runtime_dir() {
    let dir = tempfile::tempdir().unwrap();
    let p = dir.path().to_str().unwrap().to_string();
    let is_dir = dir.path().is_dir();
    assert_eq!(resolve_secure_tmp_dir(Some(p.clone()), is_dir, "/tmp".to_string()), p);
}

#[test]
fn resolve_secure_tmp_dir_falls_back_when_unset() {
    assert_eq!(resolve_secure_tmp_dir(None, false, "/tmp".to_string()), "/tmp");
}

#[test]
fn resolve_secure_tmp_dir_falls_back_when_not_a_directory() {
    let dir = tempfile::tempdir().unwrap();
    let bogus = dir.path().join("does-not-exist");
    let is_dir = bogus.is_dir();
    assert_eq!(
        resolve_secure_tmp_dir(Some(bogus.to_str().unwrap().to_string()), is_dir, "/tmp".to_string()),
        "/tmp"
    );
}
