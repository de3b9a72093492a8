use base64::Engine;
use secretstash::crypto::encrypt;
use secretstash::migrate::{
    check_canary, convert_history, convert_items, convert_tags, migrate_precheck, migration_summary,
    MigrateError, OldHistory, OldItem, OldTag,
};

fn b64(b: &[u8]) -> String {
    base64::engine::general_purpose::STANDARD.encode(b)
}

fn old_item(key: &[u8; 32], name: &str, content: &[u8]) -> OldItem {
    let (enc, nonce) = encrypt(key, content).unwrap();
    OldItem {
        id: 3,
        shortname: name.to_string(),
        item_type: "note".to_string(),
        content_enc: enc,
        nonce,
        created_at: "c".to_string(),
        updated_at: "u".to_string(),
        browser: None,
    }
}

#[test]
fn precheck_order() {
    assert!(matches!(migrate_precheck(true, true), Err(MigrateError::AlreadyMigrated)));
    assert!(matches!(migrate_precheck(true, false), Err(MigrateError::AlreadyMigrated)));
    assert!(matches!(migrate_precheck(false, false), Err(MigrateError::NoVault)));
    assert!(migrate_precheck(false, true).is_ok());
}

#[test]
fn canary_checks_the_password() {
    let key = [5u8; 32];
    let (enc, nonce) = encrypt(&key, b"stash-auth-canary-v1").unwrap();
    let (e, n) = (b64(&enc), b64(&nonce));
    assert!(check_canary(&key, Some(&e), Some(&n)).is_ok());
    assert!(matches!(check_canary(&[6u8; 32], Some(&e), Some(&n)), Err(MigrateError::IncorrectPassword)));
    assert!(matches!(check_canary(&key, None, Some(&n)), Err(MigrateError::MissingCanary)));
    assert!(matches!(check_canary(&key, Some(&e), None), Err(MigrateError::MissingCanaryNonce)));
    assert!(matches!(check_canary(&key, Some("!!"), Some(&n)), Err(MigrateError::InvalidCanary)));
}

#[test]
fn items_are_opened_and_keep_their_fields() {
    let key = [1u8; 32];
    let old = vec![old_item(&key, "note1", b"hello world"), old_item(&key, "n2", b"")];
    let new = convert_items(&key, &old).unwrap();
    assert_eq!(new.len(), 2);
    assert_eq!(new[0].id, 3);
    assert_eq!(new[0].shortname, "note1");
    assert_eq!(new[0].item_type, "note");
    assert_eq!(new[0].content, "hello world");
    assert_eq!(new[0].created_at, "c");
    assert_eq!(new[0].updated_at, "u");
    assert_eq!(new[1].content, "");
}

#[test]
fn first_bad_item_stops_conversion() {
    let key = [1u8; 32];
    let mut bad = old_item(&key, "bad", b"x");
    bad.content_enc[0] ^= 1;
    let old = vec![old_item(&key, "ok", b"fine"), bad, old_item(&key, "later", b"y")];
    match convert_items(&key, &old) {
        Err(MigrateError::ItemUndecryptable { shortname }) => assert_eq!(shortname, "bad"),
        other => panic!("unexpected: {:?}", other.map(|v| v.len())),
    }
    let not_utf8 = vec![old_item(&key, "bin", &[0xff, 0xfe])];
    assert!(matches!(convert_items(&key, &not_utf8), Err(MigrateError::ItemNotUtf8 { .. })));
}

#[test]
fn history_and_tags_are_opened_in_order() {
    let key = [2u8; 32];
    let (e1, n1) = encrypt(&key, b"v1 content").unwrap();
    let (e2, n2) = encrypt(&key, b"v2 content").unwrap();
    let hist = vec![
        OldHistory { item_id: 1, content_enc: e1, nonce: n1, version: 1, created_at: "a".to_string() },
        OldHistory { item_id: 1, content_enc: e2, nonce: n2, version: 2, created_at: "b".to_string() },
    ];
    let h = convert_history(&key, &hist).unwrap();
    assert_eq!(h[0].content, "v1 content");
    assert_eq!(h[1].content, "v2 content");
    assert_eq!(h[1].version, 2);
    let (t1, m1) = encrypt(&key, b"work").unwrap();
    let (t2, m2) = encrypt(&key, b"personal").unwrap();
    let tags = vec![
        OldTag { item_id: 1, tag_enc: t1, nonce: m1 },
        OldTag { item_id: 1, tag_enc: t2, nonce: m2 },
    ];
    let t = convert_tags(&key, &tags).unwrap();
    assert_eq!(t.iter().map(|x| x.tag.as_str()).collect::<Vec<_>>(), vec!["work", "personal"]);
    assert!(matches!(convert_tags(&[9u8; 32], &tags), Err(MigrateError::TagUndecryptable)));
}

#[test]
fn summary_line() {
    assert_eq!(
        migration_summary(2, 3, 4),
        "Migration complete. 2 item(s), 3 history entry/entries, 4 tag(s) migrated."
    );
}
