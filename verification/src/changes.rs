//! Decisions of the commands that add, edit, restore, purge and import items.

use vstd::prelude::*;

use crate::search::opt_chars;
use crate::text::{chars_of, str_eq, trim_chars, trim_ws};
use crate::tagging::strings_view;
use crate::vault::{HistoryEntry, Item};

verus! {

/// Whether `t` names an item type (`url` or `note`).
pub open spec fn is_item_type(t: Seq<char>) -> bool {
    t == "url"@ || t == "note"@
}

/// Whether `t` names an item type (`url` or `note`).
pub fn is_valid_item_type(t: &str) -> (r: bool)
    ensures
        r == is_item_type(t@),
{
    str_eq(t, "url") || str_eq(t, "note")
}

/// Why an item cannot be added.
#[derive(Debug)]
pub enum AddError {
    /// `--edit` and `--stdin` were both given.
    EditAndStdin,
    /// Text was given together with `--edit` or `--stdin`: exactly one
    /// content source is allowed.
    TextAndOtherSource,
    /// `--browser` was given for an item that is not a URL.
    BrowserNotUrl,
    /// `--private` or `--no-private` was given for an item that is not a URL.
    PrivateNotUrl,
    /// No content: neither `--edit`, `--stdin` nor text.
    NoContent,
    /// The content is blank.
    EmptyContent,
}

/// How many content sources were given.
pub open spec fn source_count(edit: bool, from_stdin: bool, has_text: bool) -> int {
    (if edit { 1int } else { 0int }) + (if from_stdin { 1int } else { 0int }) + (if has_text {
        1int
    } else {
        0int
    })
}

/// Checks the options of `add` before the vault is opened: at most one
/// content source (`--edit` with `--stdin` reported as such), and `--browser`
/// and `--private` only for URL items.
pub fn check_add_args(
    item_type: &str,
    edit: bool,
    from_stdin: bool,
    text: Option<&str>,
    browser: Option<&str>,
    private: Option<bool>,
) -> (r: Result<(), AddError>)
    ensures
        edit && from_stdin ==> r matches Err(AddError::EditAndStdin),
        !(edit && from_stdin) && source_count(edit, from_stdin, text is Some) > 1 ==> r matches Err(
            AddError::TextAndOtherSource,
        ),
        source_count(edit, from_stdin, text is Some) <= 1 && browser is Some && item_type@ != "url"@
            ==> r matches Err(AddError::BrowserNotUrl),
        source_count(edit, from_stdin, text is Some) <= 1 && !(browser is Some && item_type@
            != "url"@) && private is Some && item_type@ != "url"@ ==> r matches Err(
            AddError::PrivateNotUrl,
        ),
        source_count(edit, from_stdin, text is Some) <= 1 && !(browser is Some && item_type@
            != "url"@) && !(private is Some && item_type@ != "url"@) ==> r is Ok,
{
    if edit && from_stdin {
        return Err(AddError::EditAndStdin);
    }
    if text.is_some() && (edit || from_stdin) {
        return Err(AddError::TextAndOtherSource);
    }
    let is_url = str_eq(item_type, "url");
    if browser.is_some() && !is_url {
        return Err(AddError::BrowserNotUrl);
    }
    if private.is_some() && !is_url {
        return Err(AddError::PrivateNotUrl);
    }
    Ok(())
}

/// Where the content of a new item comes from.
#[derive(Debug)]
pub enum ContentSource {
    /// Compose in the editor, starting from an empty file.
    Editor,
    /// Read standard input.
    Stdin,
    /// The text given on the command line.
    Text(String),
}

/// The one source of a new item's content: the editor, standard input, or
/// the text itself; more than one source, or none, is refused.
pub fn content_source(edit: bool, from_stdin: bool, text: Option<&str>) -> (r: Result<
    ContentSource,
    AddError,
>)
    ensures
        edit && from_stdin ==> r matches Err(AddError::EditAndStdin),
        !(edit && from_stdin) && source_count(edit, from_stdin, text is Some) > 1 ==> r matches Err(
            AddError::TextAndOtherSource,
        ),
        source_count(edit, from_stdin, text is Some) == 0 ==> r matches Err(AddError::NoContent),
        source_count(edit, from_stdin, text is Some) == 1 && edit ==> r matches Ok(ContentSource::Editor),
        source_count(edit, from_stdin, text is Some) == 1 && from_stdin ==> r matches Ok(ContentSource::Stdin),
        source_count(edit, from_stdin, text is Some) == 1 && text is Some ==> (r matches Ok(
            ContentSource::Text(s),
        ) && s@ == text->0@),
{
    if edit && from_stdin {
        return Err(AddError::EditAndStdin);
    }
    if text.is_some() && (edit || from_stdin) {
        return Err(AddError::TextAndOtherSource);
    }
    if edit {
        Ok(ContentSource::Editor)
    } else if from_stdin {
        Ok(ContentSource::Stdin)
    } else {
        match text {
            Some(t) => Ok(ContentSource::Text(t.to_owned())),
            None => Err(AddError::NoContent),
        }
    }
}

/// Whether `content` has something besides whitespace.
pub fn content_is_blank(content: &str) -> (r: bool)
    ensures
        r == (trim_ws(content@).len() == 0),
{
    let c = chars_of(content);
    let t = trim_chars(&c);
    t.len() == 0
}

/// What `add` reports once the item is stored.
pub open spec fn added_message_spec(shortname: Seq<char>, item_type: Seq<char>) -> Seq<char> {
    "Added '"@ + shortname + "' ("@ + item_type + ")."@
}

/// What `add` reports once the item is stored.
pub fn added_message(shortname: &str, item_type: &str) -> (r: String)
    ensures
        r@ == added_message_spec(shortname@, item_type@),
{
    let mut out = chars_of("Added '");
    crate::text::append_chars(&mut out, &chars_of(shortname));
    crate::text::append_chars(&mut out, &chars_of("' ("));
    crate::text::append_chars(&mut out, &chars_of(item_type));
    crate::text::append_chars(&mut out, &chars_of(")."));
    crate::text::string_from_chars(out)
}

/// What an edit comes to.
#[derive(Debug)]
pub enum EditOutcome {
    /// The content is unchanged: nothing is written.
    NoChange,
    /// The new content is blank: refused.
    Empty,
    /// Archive the old content and write the new.
    Replace,
}

/// Decides an edit from the old and the edited content.
pub fn plan_edit(old: &str, new: &str) -> (r: EditOutcome)
    ensures
        new@ == old@ ==> r is NoChange,
        new@ != old@ && trim_ws(new@).len() == 0 ==> r is Empty,
        new@ != old@ && trim_ws(new@).len() != 0 ==> r is Replace,
{
    if str_eq(new, old) {
        EditOutcome::NoChange
    } else if content_is_blank(new) {
        EditOutcome::Empty
    } else {
        EditOutcome::Replace
    }
}

/// A replacement of an item's content and title; the old ones are archived
/// as the next version.
#[derive(Debug)]
pub struct Replacement {
    pub item_id: i64,
    pub shortname: String,
    pub old_content: String,
    pub old_title: Option<String>,
    pub new_content: String,
    pub new_title: Option<String>,
}

/// The replacement that writes `new_content` over an item, keeping its
/// title (an edit in the editor).
pub fn content_replacement(item: &Item, new_content: String) -> (r: Replacement)
    ensures
        r.item_id == item.id,
        r.shortname@ == item.shortname@,
        r.old_content@ == item.content@,
        crate::browser::opt_string(r.old_title) == crate::browser::opt_string(item.title),
        r.new_content@ == new_content@,
        crate::browser::opt_string(r.new_title) == crate::browser::opt_string(item.title),
{
    Replacement {
        item_id: item.id,
        shortname: item.shortname.clone(),
        old_content: item.content.clone(),
        old_title: clone_opt(&item.title),
        new_content,
        new_title: clone_opt(&item.title),
    }
}

/// The replacement that gives an item the title `title` and keeps its
/// content (`edit --title`); the old content and title are archived.
pub fn title_replacement(item: &Item, title: &str) -> (r: Replacement)
    ensures
        r.item_id == item.id,
        r.shortname@ == item.shortname@,
        r.old_content@ == item.content@,
        crate::browser::opt_string(r.old_title) == crate::browser::opt_string(item.title),
        r.new_content@ == item.content@,
        r.new_title matches Some(t) && t@ == title@,
{
    Replacement {
        item_id: item.id,
        shortname: item.shortname.clone(),
        old_content: item.content.clone(),
        old_title: clone_opt(&item.title),
        new_content: item.content.clone(),
        new_title: Some(title.to_owned()),
    }
}

/// Why an item cannot be restored.
#[derive(Debug)]
pub enum RestoreError {
    /// The requested version does not exist.
    VersionNotFound(i64),
    /// The item has no archived version.
    NoHistory,
}

fn clone_opt(o: &Option<String>) -> (r: Option<String>)
    ensures
        crate::browser::opt_string(r) == crate::browser::opt_string(*o),
{
    match o {
        Some(s) => Some(s.clone()),
        None => None,
    }
}

/// Decides a restore of `item` to `entry`, the requested version (`version`)
/// or, without one, the latest archived version; `entry` is `None` when there
/// is no such version. The current content and title are archived and the
/// entry's written back.
pub fn plan_restore(item: &Item, version: Option<i64>, entry: Option<&HistoryEntry>) -> (r: Result<
    Replacement,
    RestoreError,
>)
    ensures
        entry is None && version is Some ==> (r matches Err(RestoreError::VersionNotFound(v)) && v
            == version->0),
        entry is None && version is None ==> r matches Err(RestoreError::NoHistory),
        entry matches Some(e) ==> (r matches Ok(rp) && rp.item_id == item.id && rp.shortname@
            == item.shortname@ && rp.old_content@ == item.content@ && crate::browser::opt_string(
            rp.old_title,
        ) == crate::browser::opt_string(item.title) && rp.new_content@ == e.content@
            && crate::browser::opt_string(rp.new_title) == crate::browser::opt_string(e.title)),
{
    match entry {
        None => match version {
            Some(v) => Err(RestoreError::VersionNotFound(v)),
            None => Err(RestoreError::NoHistory),
        },
        Some(e) => Ok(
            Replacement {
                item_id: item.id,
                shortname: item.shortname.clone(),
                old_content: item.content.clone(),
                old_title: clone_opt(&item.title),
                new_content: e.content.clone(),
                new_title: clone_opt(&e.title),
            },
        ),
    }
}

/// Whether the answer to "Delete ...? [y/N]" confirms: `y` or `Y`, surrounding
/// whitespace ignored.
pub open spec fn confirms(line: Seq<char>) -> bool {
    trim_ws(line) == seq!['y'] || trim_ws(line) == seq!['Y']
}

/// Whether the answer to the purge prompt confirms.
pub fn confirm_purge(line: &str) -> (r: bool)
    ensures
        r == confirms(line@),
{
    let c = chars_of(line);
    let t = trim_chars(&c);
    let r = t.len() == 1 && (t[0] == 'y' || t[0] == 'Y');
    proof {
        if t@.len() == 1 {
            assert(t@ =~= seq![t@[0]]);
        }
    }
    r
}

/// What happens to one item of an import file.
#[derive(Debug)]
pub enum ImportDecision {
    /// Unknown type: counted as failed.
    Fail,
    /// Already in the vault and not overwriting: counted as skipped.
    Skip,
    /// Insert it, first deleting the existing item when `replace`.
    Insert { replace: bool },
}

/// Decides one item of an import: unknown types fail (`exists` is then not
/// consulted), existing items are skipped unless overwriting, in which case
/// they are replaced.
pub fn import_decision(item_type: &str, exists: bool, overwrite: bool) -> (r:
    ImportDecision)
    ensures
        !is_item_type(item_type@) ==> r is Fail,
        is_item_type(item_type@) && exists && !overwrite ==> r is Skip,
        is_item_type(item_type@) && exists && overwrite ==> r == (ImportDecision::Insert { replace: true }),
        is_item_type(item_type@) && !exists ==> r == (ImportDecision::Insert { replace: false }),
{
    if !is_valid_item_type(item_type) {
        ImportDecision::Fail
    } else if exists && !overwrite {
        ImportDecision::Skip
    } else {
        ImportDecision::Insert { replace: exists }
    }
}

/// Counts of an import: items imported, skipped and failed.
#[derive(Debug)]
pub struct ImportTally {
    pub imported: usize,
    pub skipped: usize,
    pub failed: usize,
}

impl ImportTally {
    /// No item counted yet.
    pub fn new() -> (r: ImportTally)
        ensures
            r.imported == 0 && r.skipped == 0 && r.failed == 0,
    {
        ImportTally { imported: 0, skipped: 0, failed: 0 }
    }

    /// The number of items counted.
    pub open spec fn total(&self) -> int {
        self.imported + self.skipped + self.failed
    }

    /// Counts one decided item.
    pub fn record(&mut self, d: &ImportDecision)
        requires
            old(self).total() < usize::MAX,
        ensures
            final(self).total() == old(self).total() + 1,
            d is Fail ==> final(self).failed == old(self).failed + 1 && final(self).imported
                == old(self).imported && final(self).skipped == old(self).skipped,
            d is Skip ==> final(self).skipped == old(self).skipped + 1 && final(self).imported
                == old(self).imported && final(self).failed == old(self).failed,
            d is Insert ==> final(self).imported == old(self).imported + 1 && final(self).skipped
                == old(self).skipped && final(self).failed == old(self).failed,
    {
        match d {
            ImportDecision::Fail => self.failed = self.failed + 1,
            ImportDecision::Skip => self.skipped = self.skipped + 1,
            ImportDecision::Insert { .. } => self.imported = self.imported + 1,
        }
    }
}

/// The tags of an imported item: each trimmed, blanks dropped (repeats kept).
pub open spec fn import_tags_spec(tags: Seq<Seq<char>>) -> Seq<Seq<char>>
    decreases tags.len(),
{
    if tags.len() == 0 {
        Seq::empty()
    } else {
        let prev = import_tags_spec(tags.drop_last());
        let t = trim_ws(tags.last());
        if t.len() == 0 {
            prev
        } else {
            prev.push(t)
        }
    }
}

/// The tags to attach to an imported item.
pub fn import_tags(tags: &Vec<String>) -> (r: Vec<String>)
    ensures
        strings_view(r@) == import_tags_spec(strings_view(tags@)),
{
    let ghost tv = strings_view(tags@);
    let mut r: Vec<String> = Vec::new();
    let mut i: usize = 0;
    assert(tv.take(0) =~= Seq::<Seq<char>>::empty());
    while i < tags.len()
        invariant
            i <= tags@.len(),
            tv == strings_view(tags@),
            strings_view(r@) == import_tags_spec(tv.take(i as int)),
        decreases tags@.len() - i,
    {
        assert(tv.take(i as int + 1).drop_last() =~= tv.take(i as int));
        assert(tv.take(i as int + 1).last() == tags@[i as int]@);
        let c = chars_of(tags[i].as_str());
        let t = trim_chars(&c);
        if t.len() > 0 {
            let ghost old_r = r@;
            r.push(crate::text::string_from_chars(t));
            assert(strings_view(r@) =~= strings_view(old_r).push(r@.last()@));
        }
        i = i + 1;
    }
    assert(tv.take(tags@.len() as int) =~= tv);
    r
}

} // verus!
