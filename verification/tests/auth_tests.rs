use secretstash::auth::{
    check_confirmation, check_new_password, login_message, login_precheck, salt_from_file, AuthError,
};
use secretstash::schema::{classify_open_error, upgrade_statements, OpenFailure};

#[test]
fn login_detects_old_format_vault() {
    assert_eq!(login_precheck(false, true), Err(AuthError::OldFormatVault));
    assert_eq!(login_precheck(false, false), Ok(true));
    assert_eq!(login_precheck(true, true), Ok(false));
}

#[test]
fn password_rules() {
    assert_eq!(check_new_password("short"), Err(AuthError::PasswordTooShort));
    assert_eq!(check_new_password("exactly-12ch"), Ok(()));
    assert_eq!(check_confirmation("abc", "abd"), Err(AuthError::PasswordsDiffer));
    assert_eq!(check_confirmation("abc", "abc"), Ok(()));
}

#[test]
fn login_messages() {
    assert_eq!(login_message(0, false), "Logged in. Session does not expire.");
    assert_eq!(login_message(15, true), "Logged in. Session expires in 15 minute(s). (keychain)");
}

#[test]
fn salt_file_is_trimmed() {
    assert_eq!(salt_from_file("  abc=\n"), "abc=");
}

#[test]
fn open_errors_are_classified() {
    assert_eq!(classify_open_error(false, true, false), OpenFailure::Other);
    assert_eq!(classify_open_error(true, true, false), OpenFailure::OldFormat);
    assert_eq!(classify_open_error(true, true, true), OpenFailure::WrongKeyOrCorrupt);
    assert_eq!(classify_open_error(true, false, false), OpenFailure::WrongKeyOrCorrupt);
}

#[test]
fn upgrades_add_only_missing_columns() {
    let all: Vec<String> = ["id", "browser", "private", "title"].iter().map(|s| s.to_string()).collect();
    let hist: Vec<String> = vec!["title".to_string()];
    assert!(upgrade_statements(&all, &hist).is_empty());
    let old: Vec<String> = vec!["id".to_string(), "content".to_string()];
    assert_eq!(
        upgrade_statements(&old, &Vec::new()),
        vec![
            "ALTER TABLE items ADD COLUMN browser TEXT",
            "ALTER TABLE items ADD COLUMN private INTEGER",
            "ALTER TABLE items ADD COLUMN title TEXT",
            "ALTER TABLE history ADD COLUMN title TEXT",
        ]
    );
}
