use secretstash::search::{check_search_args, search_hits, search_matcher, Matcher, SearchError};
use secretstash::vault::{HistoryEntry, Item, StoredItem, Tag};
use secretstash::text::preview;

#[test]
fn literal_match_found() {
    let m = Matcher::build("hello", false).unwrap();
    assert!(m.find_snippet("say hello world").is_some());
}

#[test]
fn literal_match_case_insensitive() {
    let m = Matcher::build("HELLO", false).unwrap();
    assert!(m.find_snippet("say hello world").is_some());
}

#[test]
fn literal_no_match() {
    let m = Matcher::build("xyz", false).unwrap();
    assert!(m.find_snippet("hello world").is_none());
}

#[test]
fn regex_match_found() {
    let m = Matcher::build(r"\d{4}", true).unwrap();
    assert!(m.find_snippet("code: 1234").is_some());
}

#[test]
fn regex_no_match() {
    let m = Matcher::build(r"\d{4}", true).unwrap();
    assert!(m.find_snippet("no digits here").is_none());
}

#[test]
fn regex_invalid_pattern_errors() {
    assert!(Matcher::build(r"[unclosed", true).is_err());
}

#[test]
fn regex_case_sensitive_by_default() {
    let m = Matcher::build("HELLO", true).unwrap();
    assert!(m.find_snippet("say hello world").is_none());
}

#[test]
fn regex_inline_case_flag() {
    let m = Matcher::build("(?i)HELLO", true).unwrap();
    assert!(m.find_snippet("say hello world").is_some());
}

#[test]
fn snippet_context_adds_ellipsis() {
    let text = format!("{}TARGET{}", "a".repeat(50), "b".repeat(50));
    let m = Matcher::build("TARGET", false).unwrap();
    let snip = m.find_snippet(&text).unwrap();
    assert!(snip.starts_with('…'));
    assert!(snip.ends_with('…'));
    assert!(snip.contains("TARGET"));
}

#[test]
fn snippet_no_ellipsis_for_short_text() {
    let m = Matcher::build("hi", false).unwrap();
    let snip = m.find_snippet("hi").unwrap();
    assert!(!snip.starts_with('…'));
    assert!(!snip.ends_with('…'));
}

#[test]
fn search_snippet_normalizes_whitespace() {
    let m = Matcher::build("bar", false).unwrap();
    let snip = m.find_snippet("foo   bar\nbaz").unwrap();
    assert!(!snip.contains('\n'));
    assert!(!snip.contains("   "));
}

#[test]
fn search_preview_short_text_unchanged() {
    assert_eq!(preview("hello world", 20), "hello world");
}

#[test]
fn search_preview_long_text_truncated() {
    let s = preview(&"word ".repeat(30), 20);
    assert!(s.ends_with('…'));
    assert!(s.chars().count() <= 21);
}

fn stored(name: &str, content: &str, tags: &[&str], history: &[(i64, &str)]) -> StoredItem {
    StoredItem {
        item: Item {
            id: 1,
            shortname: name.to_string(),
            item_type: "note".to_string(),
            content: content.to_string(),
            title: None,
            created_at: "c".to_string(),
            updated_at: "u".to_string(),
            browser: None,
            private: None,
        },
        tags: tags.iter().enumerate().map(|(i, t)| Tag { id: i as i64, tag: t.to_string() }).collect(),
        history: history
            .iter()
            .map(|(v, c)| HistoryEntry {
                content: c.to_string(),
                title: None,
                version: *v,
                created_at: "h".to_string(),
            })
            .collect(),
    }
}

#[test]
fn search_finds_archived_versions_when_only_they_match() {
    let entries = vec![stored("wifi", "new password", &[], &[(1, "old secret"), (2, "other")])];
    let m = search_matcher(Some("secret"), false).unwrap();
    let hits = search_hits(&entries, &m, true, &Vec::new(), None).unwrap();
    assert_eq!(hits.len(), 1);
    assert_eq!(hits[0].0, "wifi:v1");
    assert_eq!(hits[0].1, "note");
    assert!(hits[0].2.contains("secret"));
    let without = search_hits(&entries, &m, false, &Vec::new(), None).unwrap();
    assert!(without.is_empty());
}

#[test]
fn search_tags_are_ored() {
    let entries = vec![
        stored("a", "x", &["Work"], &[]),
        stored("b", "x", &["home"], &[]),
        stored("c", "x", &["misc"], &[]),
    ];
    let tags = vec!["work".to_string(), "HOME".to_string()];
    let hits = search_hits(&entries, &None, false, &tags, None).unwrap();
    let names: Vec<&str> = hits.iter().map(|h| h.0.as_str()).collect();
    assert_eq!(names, vec!["a", "b"]);
}

#[test]
fn search_argument_checks() {
    assert!(matches!(check_search_args(None, false, &Vec::new(), None), Err(SearchError::MissingCriteria)));
    assert!(matches!(
        check_search_args(None, true, &vec!["t".to_string()], None),
        Err(SearchError::RegexNeedsPattern)
    ));
    assert!(check_search_args(None, false, &vec!["t".to_string()], None).is_ok());
    assert!(check_search_args(Some("p"), true, &Vec::new(), None).is_ok());
}

#[test]
fn search_regex_uses_the_given_pattern() {
    let entries = vec![stored("pin", "code 4821 here", &[], &[]), stored("other", "abcd", &[], &[])];
    let m = search_matcher(Some(r"\d{4}"), true).unwrap();
    let hits = search_hits(&entries, &m, false, &Vec::new(), None).unwrap();
    assert_eq!(hits.len(), 1);
    assert_eq!(hits[0].0, "pin");
    assert!(hits[0].2.contains("4821"));
}
