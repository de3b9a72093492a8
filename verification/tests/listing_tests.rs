use secretstash::display::{fmt_ts, render_history, render_show};
use secretstash::listing::{list, render_tags};
use secretstash::vault::{HistoryEntry, Item, StoredItem, Tag};

fn item(name: &str, ty: &str, content: &str, title: Option<&str>) -> Item {
    Item {
        id: 1,
        shortname: name.to_string(),
        item_type: ty.to_string(),
        content: content.to_string(),
        title: title.map(|t| t.to_string()),
        created_at: "2024-01-02T03:04:05+00:00".to_string(),
        updated_at: "2024-02-03T04:05:06+00:00".to_string(),
        browser: None,
        private: None,
    }
}

fn tags(names: &[&str]) -> Vec<Tag> {
    names
        .iter()
        .enumerate()
        .map(|(i, t)| Tag { id: i as i64, tag: t.to_string() })
        .collect()
}

fn stored(i: Item, t: &[&str]) -> StoredItem {
    StoredItem { item: i, tags: tags(t), history: Vec::new() }
}

#[test]
fn list_empty_vault() {
    assert_eq!(list(&Vec::new(), &Vec::new(), None), vec!["Vault is empty."]);
}

#[test]
fn list_without_titles() {
    let entries = vec![
        stored(item("gh", "url", "https://github.com", None), &["work", "dev"]),
        stored(item("todo", "note", "milk", None), &[]),
    ];
    let lines = list(&entries, &Vec::new(), None);
    let rule = "─".repeat(4 + 2 + 4 + 2 + 20);
    assert_eq!(
        lines,
        vec![
            "NAME  TYPE  TAGS".to_string(),
            rule,
            "gh    url   dev, work".to_string(),
            "todo  note  ".to_string(),
            String::new(),
            "2 item(s).".to_string(),
        ]
    );
}

#[test]
fn list_with_titles_and_type_filter() {
    let entries = vec![
        stored(item("gh", "url", "https://github.com", Some("GitHub home")), &["work"]),
        stored(item("todo", "note", "milk", None), &[]),
    ];
    let lines = list(&entries, &Vec::new(), Some("url"));
    assert_eq!(lines[0], "NAME  TYPE  TITLE        TAGS");
    assert_eq!(lines[1], "─".repeat(4 + 2 + 4 + 2 + 11 + 2 + 20));
    assert_eq!(lines[2], "gh    url   GitHub home  work");
    assert_eq!(lines[4], "1 item(s).");
    assert_eq!(lines.len(), 5);
}

#[test]
fn list_tag_filter_is_any_and_case_insensitive() {
    let entries = vec![
        stored(item("a", "note", "x", None), &["Work"]),
        stored(item("b", "note", "y", None), &["home"]),
        stored(item("c", "note", "z", None), &[]),
    ];
    let filters = vec!["WORK".to_string(), "other".to_string()];
    let lines = list(&entries, &filters, None);
    assert_eq!(lines[2], "a     note  Work");
    assert_eq!(lines.last().unwrap(), "1 item(s).");
}

#[test]
fn list_no_match_names_the_filters() {
    let entries = vec![stored(item("a", "note", "x", None), &["work"])];
    let filters = vec!["x".to_string(), "y".to_string()];
    assert_eq!(list(&entries, &filters, None), vec!["No items tagged with: \"x\", \"y\"."]);
}

#[test]
fn tags_table() {
    let all = vec![("dev".to_string(), 2i64), ("personal".to_string(), 1i64)];
    assert_eq!(
        render_tags(&all),
        vec![
            "TAG       ITEMS".to_string(),
            "─".repeat(8 + 2 + 5),
            "dev       2".to_string(),
            "personal  1".to_string(),
            String::new(),
            "2 tag(s).".to_string(),
        ]
    );
    assert_eq!(render_tags(&Vec::new()), vec!["No tags in vault."]);
}

#[test]
fn fmt_ts_formats_rfc3339_and_keeps_other_text() {
    assert_eq!(fmt_ts("2024-01-02T03:04:05+00:00"), "2024-01-02 03:04 UTC");
    assert_eq!(fmt_ts("yesterday"), "yesterday");
}

#[test]
fn show_plain_with_title_and_tags() {
    let i = item("gh", "url", "https://github.com\n\n", Some("GitHub"));
    let lines = render_show(&i, &tags(&["work", "dev"]), false);
    assert_eq!(lines, vec!["GitHub", "https://github.com", "", "tags: dev, work"]);
}

#[test]
fn show_verbose() {
    let mut i = item("gh", "url", "https://github.com", None);
    i.browser = Some("firefox".to_string());
    i.private = Some(true);
    let lines = render_show(&i, &tags(&["b", "a"]), true);
    assert_eq!(
        lines,
        vec![
            "shortname : gh",
            "type      : url",
            "browser   : firefox",
            "private   : yes",
            "tags      : a, b",
            "created   : 2024-01-02 03:04 UTC",
            "updated   : 2024-02-03 04:05 UTC",
            "",
            "https://github.com",
        ]
    );
}

#[test]
fn history_lists_versions_then_current() {
    let i = item("k", "note", "current\n", Some("Now"));
    let entries = vec![
        HistoryEntry {
            content: "v1 content".to_string(),
            title: None,
            version: 1,
            created_at: "2024-01-01T00:00:00+00:00".to_string(),
        },
        HistoryEntry {
            content: "v2 content".to_string(),
            title: Some("Old".to_string()),
            version: 2,
            created_at: "bad time".to_string(),
        },
    ];
    assert_eq!(
        render_history(&i, &entries),
        vec![
            "History for 'k' (note):",
            "",
            "─── v1 (2024-01-01 00:00 UTC) ───",
            "v1 content",
            "",
            "─── v2 (bad time) ───",
            "Old",
            "v2 content",
            "",
            "─── current (2024-02-03 04:05 UTC) ───",
            "Now",
            "current",
        ]
    );
}
