use secretstash::browser::{
    ambiguous_message, plan_browser_update, plan_web, update_all_messages, update_messages, BrowserArgError, WebAction,
    WebError,
};
use secretstash::changes::{
    added_message, check_add_args, confirm_purge, content_is_blank, content_source, plan_edit, plan_restore, AddError,
    ContentSource, EditOutcome, RestoreError,
};
use secretstash::tagging::{dedup_tags, new_tags, tags_to_remove};
use secretstash::vault::{HistoryEntry, Item, Tag};

fn url_item(content: &str) -> Item {
    Item {
        id: 4,
        shortname: "gh".to_string(),
        item_type: "url".to_string(),
        content: content.to_string(),
        title: Some("now".to_string()),
        created_at: "c".to_string(),
        updated_at: "u".to_string(),
        browser: None,
        private: None,
    }
}

fn s(v: &[&str]) -> Vec<String> {
    v.iter().map(|x| x.to_string()).collect()
}

#[test]
fn add_argument_checks() {
    assert!(matches!(check_add_args("note", true, true, None, None, None), Err(AddError::EditAndStdin)));
    assert!(matches!(
        check_add_args("note", false, false, None, Some("firefox"), None),
        Err(AddError::BrowserNotUrl)
    ));
    assert!(matches!(check_add_args("note", false, false, None, None, Some(true)), Err(AddError::PrivateNotUrl)));
    assert!(check_add_args("url", false, false, Some("https://a"), Some("firefox"), Some(false)).is_ok());
}

#[test]
fn add_refuses_text_with_another_source() {
    assert!(matches!(
        check_add_args("note", true, false, Some("hello"), None, None),
        Err(AddError::TextAndOtherSource)
    ));
    assert!(matches!(
        check_add_args("note", false, true, Some("hello"), None, None),
        Err(AddError::TextAndOtherSource)
    ));
    assert!(check_add_args("note", true, false, None, None, None).is_ok());
    assert!(check_add_args("note", false, false, Some("hello"), None, None).is_ok());
}

#[test]
fn content_sources() {
    assert!(matches!(content_source(true, false, None), Ok(ContentSource::Editor)));
    assert!(matches!(content_source(true, false, Some("x")), Err(AddError::TextAndOtherSource)));
    assert!(matches!(content_source(false, true, Some("x")), Err(AddError::TextAndOtherSource)));
    assert!(matches!(content_source(true, true, None), Err(AddError::EditAndStdin)));
    assert!(matches!(content_source(false, true, None), Ok(ContentSource::Stdin)));
    assert!(matches!(content_source(false, false, Some("y")), Ok(ContentSource::Text(t)) if t == "y"));
    assert!(matches!(content_source(false, false, None), Err(AddError::NoContent)));
    assert!(content_is_blank(" \n\t"));
    assert!(!content_is_blank(" a "));
}

#[test]
fn edits() {
    assert!(matches!(plan_edit("a", "a"), EditOutcome::NoChange));
    assert!(matches!(plan_edit("a", "  \n"), EditOutcome::Empty));
    assert!(matches!(plan_edit("a", "b"), EditOutcome::Replace));
}

#[test]
fn restores() {
    let item = url_item("https://x.org");
    let entry = HistoryEntry {
        content: "https://old.org".to_string(),
        title: None,
        version: 2,
        created_at: "t".to_string(),
    };
    let r = plan_restore(&item, Some(2), Some(&entry)).unwrap();
    assert_eq!(r.old_content, "https://x.org");
    assert_eq!(r.old_title.as_deref(), Some("now"));
    assert_eq!(r.new_content, "https://old.org");
    assert_eq!(r.new_title, None);
    assert!(matches!(plan_restore(&item, Some(9), None), Err(RestoreError::VersionNotFound(9))));
    assert!(matches!(plan_restore(&item, None, None), Err(RestoreError::NoHistory)));
}

#[test]
fn purge_confirmation() {
    assert!(confirm_purge("y\n"));
    assert!(confirm_purge(" Y "));
    assert!(!confirm_purge("yes"));
    assert!(!confirm_purge(""));
}

#[test]
fn tag_rules() {
    assert_eq!(dedup_tags(&s(&[" a ", "", "b", "a"])), vec!["a", "b"]);
    assert_eq!(new_tags(&s(&["a"]), &s(&["a", " b", "b", "  "])), vec!["b"]);
    let raw = vec![
        Tag { id: 10, tag: "x".to_string() },
        Tag { id: 11, tag: "y".to_string() },
        Tag { id: 12, tag: "x".to_string() },
    ];
    assert_eq!(tags_to_remove(&raw, &s(&["x", "z", "y"])), vec![10, 11]);
}

#[test]
fn web_plans() {
    let flags: Vec<(String, String)> = vec![("opera".to_string(), "--private".to_string())];
    match plan_web(&url_item(" https://x.org \n"), false, None, None, &flags) {
        Ok(WebAction::OpenDefault { url }) => assert_eq!(url, "https://x.org"),
        other => panic!("{:?}", other),
    }
    match plan_web(&url_item("https://x.org"), true, Some("fi"), None, &flags) {
        Ok(WebAction::OpenPrivateWith { browser, flag, url }) => {
            assert_eq!((browser.as_str(), flag.as_str(), url.as_str()), ("firefox", "--private-window", "https://x.org"))
        }
        other => panic!("{:?}", other),
    }
    match plan_web(&url_item("https://x.org"), true, Some("opera"), None, &flags) {
        Ok(WebAction::OpenPrivateWith { flag, .. }) => assert_eq!(flag, "--private"),
        other => panic!("{:?}", other),
    }
    assert!(matches!(
        plan_web(&url_item("https://x.org"), true, None, Some("safari"), &flags),
        Err(WebError::UnknownPrivateFlag { .. })
    ));
    assert!(matches!(
        plan_web(&url_item("https://x.org"), true, None, None, &flags),
        Ok(WebAction::OpenPrivateDiscover { .. })
    ));
    assert!(matches!(plan_web(&url_item("file:///etc/passwd"), false, None, None, &flags), Err(WebError::NotHttpUrl)));
    let mut note = url_item("https://x.org");
    note.item_type = "note".to_string();
    assert!(matches!(plan_web(&note, false, None, None, &flags), Err(WebError::NotUrl { .. })));
}

#[test]
fn browser_updates() {
    assert!(matches!(plan_browser_update(Some("firefox"), true, None), Err(BrowserArgError::ClearWithName)));
    assert!(matches!(plan_browser_update(None, false, None), Err(BrowserArgError::NothingToSet)));
    let u = plan_browser_update(None, true, Some(false)).unwrap();
    assert_eq!(u.browser, Some(None));
    assert_eq!(u.private, Some(None));
    let u = plan_browser_update(Some("firefox"), false, Some(true)).unwrap();
    assert_eq!(u.browser, Some(Some("firefox".to_string())));
    assert_eq!(u.private, Some(Some(true)));
}

#[test]
fn replacements_archive_the_current_version() {
    let item = url_item("https://x.org");
    let r = secretstash::changes::content_replacement(&item, "https://y.org".to_string());
    assert_eq!((r.old_content.as_str(), r.new_content.as_str()), ("https://x.org", "https://y.org"));
    assert_eq!(r.old_title.as_deref(), Some("now"));
    assert_eq!(r.new_title.as_deref(), Some("now"));
    let t = secretstash::changes::title_replacement(&item, "later");
    assert_eq!(t.new_content, "https://x.org");
    assert_eq!(t.old_title.as_deref(), Some("now"));
    assert_eq!(t.new_title.as_deref(), Some("later"));
}

#[test]
fn add_reports_the_new_item() {
    assert_eq!(added_message("gh", "url"), "Added 'gh' (url).");
}

#[test]
fn browser_update_messages() {
    let u = plan_browser_update(Some("firefox"), false, Some(true)).unwrap();
    assert_eq!(
        update_messages("gh", &u),
        vec!["Set browser for 'gh' to 'firefox'.", "Set 'gh' to always open in private mode."]
    );
    let u = plan_browser_update(None, true, Some(false)).unwrap();
    assert_eq!(
        update_messages("gh", &u),
        vec!["Cleared browser preference for 'gh'.", "Cleared private-mode preference for 'gh'."]
    );
    let u = plan_browser_update(None, false, Some(true)).unwrap();
    assert_eq!(update_messages("gh", &u), vec!["Set 'gh' to always open in private mode."]);
}

#[test]
fn browser_update_all_messages() {
    let u = plan_browser_update(Some("brave-browser"), false, None).unwrap();
    assert_eq!(update_all_messages(12, &u), vec!["Set browser to 'brave-browser' for 12 URL item(s)."]);
    let u = plan_browser_update(None, true, Some(false)).unwrap();
    assert_eq!(
        update_all_messages(0, &u),
        vec!["Cleared browser preference for 0 URL item(s).", "Cleared private-mode preference for 0 URL item(s)."]
    );
    let u = plan_browser_update(None, false, Some(true)).unwrap();
    assert_eq!(update_all_messages(3, &u), vec!["Set 3 URL item(s) to always open in private mode."]);
}

#[test]
fn ambiguous_browser_message() {
    let m = vec!["chromium".to_string(), "chromium-browser".to_string()];
    assert_eq!(ambiguous_message("chromi", &m), "ambiguous browser 'chromi': matches chromium, chromium-browser");
}
