//! The portable export of a vault, and what an import reports.

use vstd::prelude::*;

use crate::changes::ImportTally;
use crate::listing::{opt_view, tag_names};
use crate::sorting::{chars_le, sort_strings, sorted_of, sorted_of_sorts};
use crate::tagging::strings_view;
use crate::text::{append_chars, chars_of, decimal, decimal_chars, string_from_chars};
use crate::vault::{HistoryEntry, StoredItem};

verus! {

/// The format version written into, and expected of, an export file.
pub const EXPORT_VERSION: u32 = 1;

/// An archived version in an export file.
#[derive(Debug)]
pub struct ExportHistoryEntry {
    pub version: i64,
    pub content: String,
    pub title: Option<String>,
    pub created_at: String,
}

/// An item in an export file.
#[derive(Debug)]
pub struct ExportItem {
    pub shortname: String,
    pub item_type: String,
    pub content: String,
    pub title: Option<String>,
    pub tags: Vec<String>,
    pub browser: Option<String>,
    pub private: Option<bool>,
    pub created_at: String,
    pub updated_at: String,
    pub history: Option<Vec<ExportHistoryEntry>>,
}

/// An export file: its format version, when it was written, and the items.
#[derive(Debug)]
pub struct ExportFile {
    pub version: u32,
    pub exported_at: String,
    pub items: Vec<ExportItem>,
}

/// An archived version as exported.
pub open spec fn export_history_view(h: ExportHistoryEntry) -> (i64, Seq<char>, Option<Seq<char>>, Seq<char>) {
    (h.version, h.content@, opt_view(h.title), h.created_at@)
}

/// An archived version of the vault as it is exported.
pub open spec fn history_export_spec(h: HistoryEntry) -> (i64, Seq<char>, Option<Seq<char>>, Seq<char>) {
    (h.version, h.content@, opt_view(h.title), h.created_at@)
}

/// Whether `x` exports the stored item `e`: every field carried over, the
/// tags sorted, and the archived versions (oldest first) only with
/// `include_history`.
pub open spec fn exports(x: ExportItem, e: StoredItem, include_history: bool) -> bool {
    &&& x.shortname@ == e.item.shortname@
    &&& x.item_type@ == e.item.item_type@
    &&& x.content@ == e.item.content@
    &&& opt_view(x.title) == opt_view(e.item.title)
    &&& strings_view(x.tags@) == sorted_of(tag_names(e.tags@))
    &&& opt_view(x.browser) == opt_view(e.item.browser)
    &&& x.private == e.item.private
    &&& x.created_at@ == e.item.created_at@
    &&& x.updated_at@ == e.item.updated_at@
    &&& if include_history {
        x.history matches Some(h) && h@.map_values(|y: ExportHistoryEntry| export_history_view(y))
            == e.history@.map_values(|y: HistoryEntry| history_export_spec(y))
    } else {
        x.history is None
    }
}

/// An exported item carries the item whole: name, type, content, title,
/// browser, private flag and times unchanged; each tag once per tag on the
/// item, in sorted order; and, with history, every archived version (oldest
/// first) with its number, content, title and time.
pub proof fn export_carries_the_item(x: ExportItem, e: StoredItem, include_history: bool)
    requires
        exports(x, e, include_history),
    ensures
        x.shortname@ == e.item.shortname@,
        x.item_type@ == e.item.item_type@,
        x.content@ == e.item.content@,
        opt_view(x.title) == opt_view(e.item.title),
        opt_view(x.browser) == opt_view(e.item.browser),
        x.private == e.item.private,
        x.created_at@ == e.item.created_at@,
        x.updated_at@ == e.item.updated_at@,
        x.tags@.len() == e.tags@.len(),
        strings_view(x.tags@).to_multiset() == tag_names(e.tags@).to_multiset(),
        forall|i: int, j: int|
            0 <= i < j < x.tags@.len() ==> chars_le(#[trigger] x.tags@[i]@, #[trigger] x.tags@[j]@),
        include_history <==> x.history is Some,
        x.history matches Some(h) ==> h@.len() == e.history@.len() && forall|k: int|
            #![trigger h@[k]]
            0 <= k < h@.len() ==> h@[k].version == e.history@[k].version && h@[k].content@
                == e.history@[k].content@ && opt_view(h@[k].title) == opt_view(e.history@[k].title)
                && h@[k].created_at@ == e.history@[k].created_at@,
{
    sorted_of_sorts(tag_names(e.tags@));
    let sv = strings_view(x.tags@);
    assert forall|i: int, j: int| 0 <= i < j < x.tags@.len() implies chars_le(
        #[trigger] x.tags@[i]@,
        #[trigger] x.tags@[j]@,
    ) by {
        assert(sv[i] == x.tags@[i]@ && sv[j] == x.tags@[j]@);
    }
    if let Some(h) = x.history {
        let hv = h@.map_values(|y: ExportHistoryEntry| export_history_view(y));
        let ev = e.history@.map_values(|y: HistoryEntry| history_export_spec(y));
        assert(hv.len() == h@.len() && ev.len() == e.history@.len());
        assert forall|k: int| #![trigger h@[k]] 0 <= k < h@.len() implies h@[k].version == e.history@[k].version
            && h@[k].content@ == e.history@[k].content@ && opt_view(h@[k].title) == opt_view(
            e.history@[k].title,
        ) && h@[k].created_at@ == e.history@[k].created_at@ by {
            assert(hv[k] == export_history_view(h@[k]));
            assert(ev[k] == history_export_spec(e.history@[k]));
        }
    }
}

fn clone_opt(o: &Option<String>) -> (r: Option<String>)
    ensures
        opt_view(r) == opt_view(*o),
{
    match o {
        Some(s) => Some(s.clone()),
        None => None,
    }
}

/// The export of one stored item.
pub fn export_item(e: &StoredItem, include_history: bool) -> (r: ExportItem)
    ensures
        exports(r, *e, include_history),
{
    let mut names: Vec<String> = Vec::new();
    let mut j: usize = 0;
    while j < e.tags.len()
        invariant
            j <= e.tags@.len(),
            strings_view(names@) == tag_names(e.tags@.take(j as int)),
        decreases e.tags@.len() - j,
    {
        names.push(e.tags[j].tag.clone());
        assert(tag_names(e.tags@.take(j as int + 1)) =~= tag_names(e.tags@.take(j as int)).push(
            e.tags@[j as int].tag@,
        ));
        assert(strings_view(names@) =~= tag_names(e.tags@.take(j as int + 1)));
        j = j + 1;
    }
    assert(e.tags@.take(e.tags@.len() as int) =~= e.tags@);
    let tags = sort_strings(names);
    let history = if include_history {
        let mut h: Vec<ExportHistoryEntry> = Vec::new();
        let mut k: usize = 0;
        while k < e.history.len()
            invariant
                k <= e.history@.len(),
                h@.map_values(|y: ExportHistoryEntry| export_history_view(y)) == e.history@.take(
                    k as int,
                ).map_values(|y: HistoryEntry| history_export_spec(y)),
            decreases e.history@.len() - k,
        {
            let src = &e.history[k];
            let ghost old_h = h@;
            h.push(
                ExportHistoryEntry {
                    version: src.version,
                    content: src.content.clone(),
                    title: clone_opt(&src.title),
                    created_at: src.created_at.clone(),
                },
            );
            assert(h@.map_values(|y: ExportHistoryEntry| export_history_view(y)) =~= old_h.map_values(
                |y: ExportHistoryEntry| export_history_view(y),
            ).push(history_export_spec(*src)));
            assert(e.history@.take(k as int + 1).map_values(|y: HistoryEntry| history_export_spec(y))
                =~= e.history@.take(k as int).map_values(|y: HistoryEntry| history_export_spec(y)).push(
                history_export_spec(*src),
            ));
            k = k + 1;
        }
        assert(e.history@.take(e.history@.len() as int) =~= e.history@);
        Some(h)
    } else {
        None
    };
    ExportItem {
        shortname: e.item.shortname.clone(),
        item_type: e.item.item_type.clone(),
        content: e.item.content.clone(),
        title: clone_opt(&e.item.title),
        tags,
        browser: clone_opt(&e.item.browser),
        private: e.item.private,
        created_at: e.item.created_at.clone(),
        updated_at: e.item.updated_at.clone(),
        history,
    }
}

/// The export file of the vault's items (in short-name order), written at
/// `exported_at`: one exported item for each stored one, in the same order.
pub fn export_file(entries: &Vec<StoredItem>, include_history: bool, exported_at: String) -> (r: ExportFile)
    ensures
        r.version == EXPORT_VERSION,
        r.exported_at@ == exported_at@,
        r.items@.len() == entries@.len(),
        forall|i: int| 0 <= i < entries@.len() ==> exports(#[trigger] r.items@[i], entries@[i], include_history),
{
    let mut items: Vec<ExportItem> = Vec::new();
    let mut i: usize = 0;
    while i < entries.len()
        invariant
            i <= entries@.len(),
            items@.len() == i,
            forall|k: int| 0 <= k < i ==> exports(#[trigger] items@[k], entries@[k], include_history),
        decreases entries@.len() - i,
    {
        items.push(export_item(&entries[i], include_history));
        i = i + 1;
    }
    ExportFile { version: EXPORT_VERSION, exported_at, items }
}

/// The warning printed for an export file of another format version.
pub open spec fn version_warning_spec(version: u32) -> Option<Seq<char>> {
    if version == EXPORT_VERSION {
        None
    } else {
        Some("Warning: export file version is "@ + decimal(version as nat) + ", expected 1. Proceeding anyway."@)
    }
}

/// The warning for an export file whose format version is not the one
/// written here; the import goes on anyway.
pub fn version_warning(version: u32) -> (r: Option<String>)
    ensures
        match (r, version_warning_spec(version)) {
            (Some(s), Some(t)) => s@ == t,
            (None, None) => true,
            _ => false,
        },
{
    if version == EXPORT_VERSION {
        None
    } else {
        let mut l = chars_of("Warning: export file version is ");
        append_chars(&mut l, &decimal_chars(version as u128));
        append_chars(&mut l, &chars_of(", expected 1. Proceeding anyway."));
        Some(string_from_chars(l))
    }
}

/// The lines that close an import: how many items were imported, and, where
/// there were any, how many were skipped and how many failed.
pub open spec fn import_report_spec(imported: nat, skipped: nat, failed: nat) -> Seq<Seq<char>> {
    seq!["Imported "@ + decimal(imported) + " item(s)."@] + (if skipped > 0 {
        seq!["Skipped "@ + decimal(skipped) + " item(s) that already exist. Use --overwrite to replace them."@]
    } else {
        Seq::empty()
    }) + (if failed > 0 {
        seq![decimal(failed) + " item(s) could not be imported (see warnings above)."@]
    } else {
        Seq::empty()
    })
}

/// What an import prints once every item is counted.
pub fn import_report(tally: &ImportTally) -> (r: Vec<String>)
    ensures
        strings_view(r@) == import_report_spec(
            tally.imported as nat,
            tally.skipped as nat,
            tally.failed as nat,
        ),
{
    let mut out: Vec<String> = Vec::new();
    let mut l = chars_of("Imported ");
    append_chars(&mut l, &decimal_chars(tally.imported as u128));
    append_chars(&mut l, &chars_of(" item(s)."));
    out.push(string_from_chars(l));
    let ghost first = strings_view(out@);
    if tally.skipped > 0 {
        let mut l = chars_of("Skipped ");
        append_chars(&mut l, &decimal_chars(tally.skipped as u128));
        append_chars(&mut l, &chars_of(" item(s) that already exist. Use --overwrite to replace them."));
        out.push(string_from_chars(l));
    }
    let ghost second = strings_view(out@);
    if tally.failed > 0 {
        let mut l = decimal_chars(tally.failed as u128);
        append_chars(&mut l, &chars_of(" item(s) could not be imported (see warnings above)."));
        out.push(string_from_chars(l));
    }
    assert(strings_view(out@) =~= import_report_spec(
        tally.imported as nat,
        tally.skipped as nat,
        tally.failed as nat,
    ));
    out
}

} // verus!
