use secretstash::browser::{normalize_browser, private_flags, resolve_browser};

#[test]
fn web_chrome_normalizes_to_google_chrome() {
    assert_eq!(normalize_browser("chrome"), "google-chrome");
}

#[test]
fn web_known_browsers_pass_through_unchanged() {
    for (name, _) in private_flags() {
        assert_eq!(normalize_browser(name), name);
    }
}

#[test]
fn web_unknown_browser_passes_through() {
    assert_eq!(normalize_browser("opera"), "opera");
}

#[test]
fn resolve_exact_match() {
    assert_eq!(resolve_browser("firefox").unwrap(), "firefox");
    assert_eq!(resolve_browser("chromium").unwrap(), "chromium");
    assert_eq!(resolve_browser("vivaldi").unwrap(), "vivaldi");
}

#[test]
fn resolve_alias_chrome() {
    assert_eq!(resolve_browser("chrome").unwrap(), "google-chrome");
}

#[test]
fn resolve_unique_prefix() {
    assert_eq!(resolve_browser("fi").unwrap(), "firefox");
    assert_eq!(resolve_browser("fire").unwrap(), "firefox");
    assert_eq!(resolve_browser("br").unwrap(), "brave-browser");
    assert_eq!(resolve_browser("go").unwrap(), "google-chrome");
    assert_eq!(resolve_browser("chromium-b").unwrap(), "chromium-browser");
    assert_eq!(resolve_browser("vivaldi-").unwrap(), "vivaldi-stable");
}

#[test]
fn resolve_ambiguous_prefix_errors() {
    assert!(resolve_browser("vi").is_err()); // vivaldi, vivaldi-stable
    assert!(resolve_browser("ch").is_err()); // chrome, chromium, chromium-browser
}

#[test]
fn resolve_unknown_browser_passes_through() {
    assert_eq!(resolve_browser("opera").unwrap(), "opera");
    assert_eq!(resolve_browser("safari").unwrap(), "safari");
}

#[test]
fn empty_browser_name_is_ambiguous() {
    assert!(resolve_browser("").is_err());
    assert_eq!(resolve_browser("chrome").unwrap(), "google-chrome");
    assert_eq!(resolve_browser("google-chrome").unwrap(), "google-chrome");
}
