//! Records of the vault: items, their archived versions and their tags.

use vstd::prelude::*;

verus! {

/// A stored note or URL.
#[derive(Debug)]
pub struct Item {
    pub id: i64,
    pub shortname: String,
    pub item_type: String,
    pub content: String,
    pub title: Option<String>,
    pub created_at: String,
    pub updated_at: String,
    pub browser: Option<String>,
    pub private: Option<bool>,
}

/// An archived version of an item's content and title.
#[derive(Debug)]
pub struct HistoryEntry {
    pub content: String,
    pub title: Option<String>,
    pub version: i64,
    pub created_at: String,
}

/// A tag attached to an item.
#[derive(Debug)]
pub struct Tag {
    pub id: i64,
    pub tag: String,
}

/// An item with its tags (in the order they were attached) and its archived
/// versions (oldest first), as read from the vault.
#[derive(Debug)]
pub struct StoredItem {
    pub item: Item,
    pub tags: Vec<Tag>,
    pub history: Vec<HistoryEntry>,
}

} // verus!
