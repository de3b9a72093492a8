use secretstash::search::snippet;
use secretstash::text::preview;

#[test]
fn snippet_match_at_start() {
    let s = snippet("hello world", "hello", 5);
    assert!(s.contains("hello"));
    assert!(!s.starts_with('…'));
}

#[test]
fn snippet_match_at_end() {
    let s = snippet("hello world", "world", 5);
    assert!(s.contains("world"));
    assert!(!s.ends_with('…'));
}

#[test]
fn snippet_match_in_middle_adds_ellipsis() {
    let text = format!("{}TARGET{}", "a".repeat(50), "b".repeat(50));
    let s = snippet(&text, "TARGET", 5);
    assert!(s.starts_with('…'));
    assert!(s.ends_with('…'));
    assert!(s.contains("TARGET"));
}

#[test]
fn snippet_is_case_insensitive() {
    let s = snippet("Hello World", "world", 5);
    assert!(s.to_lowercase().contains("world"));
}

#[test]
fn find_snippet_normalizes_whitespace() {
    let s = snippet("foo   bar\nbaz", "bar", 10);
    assert!(!s.contains('\n'));
    assert!(!s.contains("   "));
}

#[test]
fn snippet_full_short_text_has_no_ellipsis() {
    let s = snippet("hi", "hi", 10);
    assert!(!s.starts_with('…'));
    assert!(!s.ends_with('…'));
}

#[test]
fn find_preview_short_text_unchanged() {
    assert_eq!(preview("hello world", 20), "hello world");
}

#[test]
fn find_preview_long_text_truncated() {
    let s = preview(&"word ".repeat(30), 20);
    assert!(s.ends_with('…'));
    assert!(s.chars().count() <= 21);
}

#[test]
fn preview_normalizes_whitespace() {
    let s = preview("foo\n\nbar  baz", 100);
    assert!(!s.contains('\n'));
}
