use secretstash::changes::{import_decision, import_tags, ImportDecision, ImportTally};
use secretstash::transfer::{export_file, import_report, version_warning, EXPORT_VERSION};
use secretstash::vault::{HistoryEntry, Item, StoredItem, Tag};

fn sample() -> StoredItem {
    StoredItem {
        item: Item {
            id: 7,
            shortname: "gh".to_string(),
            item_type: "url".to_string(),
            content: "https://github.com".to_string(),
            title: Some("GitHub".to_string()),
            created_at: "c".to_string(),
            updated_at: "u".to_string(),
            browser: Some("firefox".to_string()),
            private: Some(true),
        },
        tags: vec![
            Tag { id: 1, tag: "work".to_string() },
            Tag { id: 2, tag: "dev".to_string() },
        ],
        history: vec![HistoryEntry {
            content: "old".to_string(),
            title: Some("T".to_string()),
            version: 1,
            created_at: "h".to_string(),
        }],
    }
}

#[test]
fn export_carries_fields_and_sorts_tags() {
    let f = export_file(&vec![sample()], false, "now".to_string());
    assert_eq!(f.version, EXPORT_VERSION);
    assert_eq!(f.exported_at, "now");
    let x = &f.items[0];
    assert_eq!(x.shortname, "gh");
    assert_eq!(x.item_type, "url");
    assert_eq!(x.content, "https://github.com");
    assert_eq!(x.title.as_deref(), Some("GitHub"));
    assert_eq!(x.tags, vec!["dev", "work"]);
    assert_eq!(x.browser.as_deref(), Some("firefox"));
    assert_eq!(x.private, Some(true));
    assert_eq!(x.created_at, "c");
    assert_eq!(x.updated_at, "u");
    assert!(x.history.is_none());
}

#[test]
fn export_with_history() {
    let f = export_file(&vec![sample()], true, "now".to_string());
    let h = f.items[0].history.as_ref().unwrap();
    assert_eq!(h.len(), 1);
    assert_eq!(h[0].version, 1);
    assert_eq!(h[0].content, "old");
    assert_eq!(h[0].title.as_deref(), Some("T"));
    assert_eq!(h[0].created_at, "h");
}

#[test]
fn import_decisions() {
    assert!(matches!(import_decision("bogus", true, true), ImportDecision::Fail));
    assert!(matches!(import_decision("note", true, false), ImportDecision::Skip));
    assert!(matches!(import_decision("note", true, true), ImportDecision::Insert { replace: true }));
    assert!(matches!(import_decision("url", false, false), ImportDecision::Insert { replace: false }));
}

#[test]
fn import_tally_and_report() {
    let mut t = ImportTally::new();
    t.record(&ImportDecision::Insert { replace: false });
    t.record(&ImportDecision::Skip);
    t.record(&ImportDecision::Fail);
    t.record(&ImportDecision::Insert { replace: true });
    assert_eq!((t.imported, t.skipped, t.failed), (2, 1, 1));
    assert_eq!(
        import_report(&t),
        vec![
            "Imported 2 item(s).",
            "Skipped 1 item(s) that already exist. Use --overwrite to replace them.",
            "1 item(s) could not be imported (see warnings above).",
        ]
    );
    assert_eq!(import_report(&ImportTally::new()), vec!["Imported 0 item(s)."]);
}

#[test]
fn imported_tags_are_trimmed_and_blanks_dropped() {
    let tags = vec![" work ".to_string(), "   ".to_string(), "work".to_string()];
    assert_eq!(import_tags(&tags), vec!["work", "work"]);
}

#[test]
fn version_warning_only_for_other_versions() {
    assert_eq!(version_warning(1), None);
    assert_eq!(
        version_warning(2).unwrap(),
        "Warning: export file version is 2, expected 1. Proceeding anyway."
    );
}
