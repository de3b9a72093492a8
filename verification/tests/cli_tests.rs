use secretstash::cli::{effective_timeout, ItemType};

#[test]
fn item_type_display() {
    assert_eq!(ItemType::Url.as_str(), "url");
    assert_eq!(ItemType::Note.as_str(), "note");
}

#[test]
fn item_type_from_name() {
    assert_eq!(ItemType::from_name("url"), Some(ItemType::Url));
    assert_eq!(ItemType::from_name("note"), Some(ItemType::Note));
    assert_eq!(ItemType::from_name("URL"), None);
}

#[test]
fn timeout_resolution_order() {
    assert_eq!(effective_timeout(Some(5), Some(60)), 5);
    assert_eq!(effective_timeout(None, Some(60)), 60);
    assert_eq!(effective_timeout(None, None), 15);
    assert_eq!(effective_timeout(Some(0), Some(60)), 0);
}
