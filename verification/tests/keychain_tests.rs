use secretstash::keychain::{
    backend_for, clear, load, loaded, mac_entry, save, save_succeeded, stored_in_keychain, Backend,
};

#[test]
fn store_passes_the_session_on_stdin() {
    let call = save("12\nabc");
    assert_eq!(call.program, "secret-tool");
    assert_eq!(
        call.args,
        vec!["store", "--label=stash session key", "service", "stash", "username", "session"]
    );
    assert_eq!(call.input.as_deref(), Some("12\nabc"));
}

#[test]
fn lookup_and_clear_name_the_entry() {
    assert_eq!(load().args, vec!["lookup", "service", "stash", "username", "session"]);
    assert!(load().input.is_none());
    assert_eq!(clear().args, vec!["clear", "service", "stash", "username", "session"]);
}

#[test]
fn lookup_answer() {
    assert_eq!(loaded(true, b"12\nabc").as_deref(), Some("12\nabc"));
    assert_eq!(loaded(true, b""), None);
    assert_eq!(loaded(false, b"12"), None);
    assert_eq!(loaded(true, &[0xff, 0x00]), None);
}

#[test]
fn store_succeeds_only_when_every_step_does() {
    assert!(save_succeeded(true, true, true));
    assert!(!save_succeeded(true, false, true));
    assert!(!save_succeeded(true, true, false));
    assert!(!save_succeeded(false, true, true));
}

#[test]
fn each_platform_has_its_keychain() {
    assert_eq!(backend_for("macos"), Backend::MacKeychain);
    assert_eq!(backend_for("linux"), Backend::SecretService);
    assert_eq!(backend_for("windows"), Backend::Unsupported);
    assert_eq!(backend_for("freebsd"), Backend::Unsupported);
}

#[test]
fn mac_entry_names_the_session() {
    let (service, account) = mac_entry();
    assert_eq!(service, "stash");
    assert_eq!(account, "session");
}

#[test]
fn nothing_is_stored_without_a_keychain() {
    assert!(!stored_in_keychain(Backend::Unsupported, true));
    assert!(stored_in_keychain(Backend::MacKeychain, true));
    assert!(!stored_in_keychain(Backend::SecretService, false));
}
