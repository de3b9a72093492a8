//! What `stash show` and `stash history` print.

use std::fmt::Write;
use vstd::prelude::*;

use crate::listing::{join_with, opt_view, push_joined, tag_names};
use crate::sorting::{sort_strings, sorted_of};
use crate::tagging::strings_view;
use crate::text::{
    append_chars, chars_of, signed_decimal, signed_decimal_chars, string_from_chars,
    trim_end_chars, trim_end_ws,
};
use crate::vault::{HistoryEntry, Item, Tag};

verus! {

/// What `chrono` makes of the RFC 3339 time `ts` shown with the `strftime`
/// pattern `pattern` (`None` where it cannot read `ts` or write the pattern).
pub uninterp spec fn rfc3339_formatted(ts: Seq<char>, pattern: Seq<char>) -> Option<Seq<char>>;

/// Reads `ts` with `chrono`'s `DateTime::parse_from_rfc3339` and writes it
/// with `DateTime::format(pattern)`; `None` where either fails. Claimed of
/// it: the result is named `rfc3339_formatted`.
#[verifier::external_body]
fn format_rfc3339(ts: &str, pattern: &str) -> (r: Option<String>)
    ensures
        r matches Some(s) ==> rfc3339_formatted(ts@, pattern@) == Some(s@),
        r is None ==> rfc3339_formatted(ts@, pattern@) is None,
{
    let dt = chrono::DateTime::parse_from_rfc3339(ts).ok()?;
    let mut s = String::new();
    write!(s, "{}", dt.format(pattern)).ok()?;
    Some(s)
}

/// How a stored time is shown: `YYYY-MM-DD HH:MM UTC`, or the text as
/// stored where it is not an RFC 3339 time.
pub open spec fn fmt_ts_spec(ts: Seq<char>) -> Seq<char> {
    match rfc3339_formatted(ts, "%Y-%m-%d %H:%M UTC"@) {
        Some(s) => s,
        None => ts,
    }
}

/// Shows a stored time.
pub fn fmt_ts(ts: &str) -> (r: String)
    ensures
        r@ == fmt_ts_spec(ts@),
{
    match format_rfc3339(ts, "%Y-%m-%d %H:%M UTC") {
        Some(s) => s,
        None => string_from_chars(chars_of(ts)),
    }
}

/// One line `label` + `value`, where `value` is present.
pub open spec fn opt_line(label: Seq<char>, value: Option<Seq<char>>) -> Seq<Seq<char>> {
    match value {
        Some(v) => seq![label + v],
        None => Seq::empty(),
    }
}

/// The metadata lines of `stash show --verbose`.
pub open spec fn verbose_lines(item: Item, tags: Seq<Seq<char>>) -> Seq<Seq<char>> {
    seq!["shortname : "@ + item.shortname@, "type      : "@ + item.item_type@]
        + opt_line("title     : "@, opt_view(item.title))
        + opt_line("browser   : "@, opt_view(item.browser))
        + (if item.private == Some(true) {
        seq!["private   : yes"@]
    } else {
        Seq::empty()
    }) + (if tags.len() > 0 {
        seq!["tags      : "@ + join_with(tags, ", "@)]
    } else {
        Seq::empty()
    }) + seq![
        "created   : "@ + fmt_ts_spec(item.created_at@),
        "updated   : "@ + fmt_ts_spec(item.updated_at@),
        Seq::<char>::empty(),
    ]
}

/// The lines that `stash show` prints for an item with the tags `tags`
/// (sorted): the metadata (with `verbose`) or the title, the content without
/// trailing whitespace, and the tags (without `verbose`).
pub open spec fn show_lines_spec(item: Item, tags: Seq<Seq<char>>, verbose: bool) -> Seq<Seq<char>> {
    (if verbose {
        verbose_lines(item, tags)
    } else {
        opt_line(Seq::empty(), opt_view(item.title))
    }) + seq![trim_end_ws(item.content@)] + (if !verbose && tags.len() > 0 {
        seq![Seq::<char>::empty(), "tags: "@ + join_with(tags, ", "@)]
    } else {
        Seq::empty()
    })
}

fn push_line(out: &mut Vec<String>, parts: Vec<char>)
    ensures
        strings_view(final(out)@) == strings_view(old(out)@).push(parts@),
{
    let ghost old_v = strings_view(out@);
    out.push(string_from_chars(parts));
    assert(strings_view(out@) =~= old_v.push(parts@));
}

fn labelled(label: &str, value: &str) -> (r: Vec<char>)
    ensures
        r@ == label@ + value@,
{
    let mut l = chars_of(label);
    append_chars(&mut l, &chars_of(value));
    l
}

/// What `stash show` prints (without `--copy`) for an item and its tags.
pub fn render_show(item: &Item, tags: &Vec<Tag>, verbose: bool) -> (r: Vec<String>)
    ensures
        strings_view(r@) == show_lines_spec(*item, sorted_of(tag_names(tags@)), verbose),
{
    let mut names: Vec<String> = Vec::new();
    let mut j: usize = 0;
    while j < tags.len()
        invariant
            j <= tags@.len(),
            strings_view(names@) == tag_names(tags@.take(j as int)),
        decreases tags@.len() - j,
    {
        names.push(tags[j].tag.clone());
        assert(tag_names(tags@.take(j as int + 1)) =~= tag_names(tags@.take(j as int)).push(
            tags@[j as int].tag@,
        ));
        assert(strings_view(names@) =~= tag_names(tags@.take(j as int + 1)));
        j = j + 1;
    }
    assert(tags@.take(tags@.len() as int) =~= tags@);
    let sorted = sort_strings(names);
    let ghost ts = sorted_of(tag_names(tags@));
    let mut out: Vec<String> = Vec::new();
    if verbose {
        push_line(&mut out, labelled("shortname : ", item.shortname.as_str()));
        push_line(&mut out, labelled("type      : ", item.item_type.as_str()));
        match &item.title {
            Some(t) => push_line(&mut out, labelled("title     : ", t.as_str())),
            None => {},
        }
        match &item.browser {
            Some(b) => push_line(&mut out, labelled("browser   : ", b.as_str())),
            None => {},
        }
        if item.private == Some(true) {
            push_line(&mut out, chars_of("private   : yes"));
        }
        if sorted.len() > 0 {
            let mut l = chars_of("tags      : ");
            push_joined(&mut l, &sorted, ", ");
            push_line(&mut out, l);
        }
        let c = fmt_ts(item.created_at.as_str());
        push_line(&mut out, labelled("created   : ", c.as_str()));
        let u = fmt_ts(item.updated_at.as_str());
        push_line(&mut out, labelled("updated   : ", u.as_str()));
        push_line(&mut out, Vec::new());
        assert(strings_view(out@) =~= verbose_lines(*item, ts));
    } else {
        match &item.title {
            Some(t) => push_line(&mut out, chars_of(t.as_str())),
            None => {},
        }
        assert(strings_view(out@) =~= opt_line(Seq::empty(), opt_view(item.title)));
    }
    let ghost first = strings_view(out@);
    push_line(&mut out, trim_end_chars(&chars_of(item.content.as_str())));
    if !verbose && sorted.len() > 0 {
        push_line(&mut out, Vec::new());
        let mut l = chars_of("tags: ");
        push_joined(&mut l, &sorted, ", ");
        push_line(&mut out, l);
    }
    assert(strings_view(out@) =~= show_lines_spec(*item, ts, verbose));
    out
}

/// What `show` prints of an item. Verbose: the name and the type on the
/// first two lines, then the title where there is one (else the browser
/// where there is one), and the content among the lines. Plain: the title
/// first where there is one, then the content.
pub proof fn show_lists_name_type_title_content(item: Item, tags: Seq<Seq<char>>)
    ensures
        show_lines_spec(item, tags, true)[0] == "shortname : "@ + item.shortname@,
        show_lines_spec(item, tags, true)[1] == "type      : "@ + item.item_type@,
        item.title matches Some(t) ==> show_lines_spec(item, tags, true)[2] == "title     : "@ + t@,
        item.title is None ==> (item.browser matches Some(b) ==> show_lines_spec(item, tags, true)[2]
            == "browser   : "@ + b@),
        show_lines_spec(item, tags, true).contains(trim_end_ws(item.content@)),
        item.title matches Some(t) ==> show_lines_spec(item, tags, false)[0] == t@
            && show_lines_spec(item, tags, false)[1] == trim_end_ws(item.content@),
        item.title is None ==> show_lines_spec(item, tags, false)[0] == trim_end_ws(item.content@),
{
    let v = verbose_lines(item, tags);
    let all = show_lines_spec(item, tags, true);
    assert(all == v + seq![trim_end_ws(item.content@)]);
    assert(all[v.len() as int] == trim_end_ws(item.content@));
    let plain = show_lines_spec(item, tags, false);
    let head = opt_line(Seq::empty(), opt_view(item.title));
    assert(plain[head.len() as int] == trim_end_ws(item.content@));
}

/// The lines of an archived version: a blank line, its heading, its title
/// where it has one, and its content without trailing whitespace.
pub open spec fn version_block(e: HistoryEntry) -> Seq<Seq<char>> {
    seq![
        Seq::<char>::empty(),
        "\u{2500}\u{2500}\u{2500} v"@ + signed_decimal(e.version as int) + " ("@ + fmt_ts_spec(
            e.created_at@,
        ) + ") \u{2500}\u{2500}\u{2500}"@,
    ] + opt_line(Seq::empty(), opt_view(e.title)) + seq![trim_end_ws(e.content@)]
}

/// The blocks of the archived versions, in order.
pub open spec fn version_blocks(es: Seq<HistoryEntry>) -> Seq<Seq<char>>
    decreases es.len(),
{
    if es.len() == 0 {
        Seq::empty()
    } else {
        version_blocks(es.drop_last()) + version_block(es.last())
    }
}

/// The lines that `stash history` prints: a heading, every archived version
/// (oldest first) and the current version.
pub open spec fn history_lines_spec(item: Item, entries: Seq<HistoryEntry>) -> Seq<Seq<char>> {
    seq!["History for '"@ + item.shortname@ + "' ("@ + item.item_type@ + "):"@] + version_blocks(entries)
        + seq![
        Seq::<char>::empty(),
        "\u{2500}\u{2500}\u{2500} current ("@ + fmt_ts_spec(item.updated_at@) + ") \u{2500}\u{2500}\u{2500}"@,
    ] + opt_line(Seq::empty(), opt_view(item.title)) + seq![trim_end_ws(item.content@)]
}

spec fn placed_at(s: Seq<Seq<char>>, o: int, b: Seq<Seq<char>>) -> bool {
    0 <= o && o + b.len() <= s.len() && s.subrange(o, o + b.len()) == b
}

proof fn lemma_version_blocks_contain(es: Seq<HistoryEntry>, k: int)
    requires
        0 <= k < es.len(),
    ensures
        exists|o: int| #[trigger] placed_at(version_blocks(es), o, version_block(es[k])),
    decreases es.len(),
{
    let init = es.drop_last();
    let vb = version_blocks(es);
    assert(vb == version_blocks(init) + version_block(es.last()));
    if k == es.len() - 1 {
        let o = version_blocks(init).len() as int;
        assert(vb.subrange(o, o + version_block(es[k]).len()) =~= version_block(es[k]));
        assert(placed_at(vb, o, version_block(es[k])));
    } else {
        assert(init[k] == es[k]);
        lemma_version_blocks_contain(init, k);
        let o = choose|o: int| #[trigger] placed_at(version_blocks(init), o, version_block(init[k]));
        assert(vb.subrange(o, o + version_block(es[k]).len()) =~= version_blocks(init).subrange(
            o,
            o + version_block(es[k]).len(),
        ));
        assert(placed_at(vb, o, version_block(es[k])));
    }
}

/// `stash history` shows every archived version: its heading
/// `─── vN (time) ───`, then its title where it has one, then its content.
pub proof fn history_shows_every_version(item: Item, es: Seq<HistoryEntry>, k: int)
    requires
        0 <= k < es.len(),
    ensures
        exists|i: int|
            #![trigger history_lines_spec(item, es)[i]]
            0 < i && history_lines_spec(item, es)[i] == "\u{2500}\u{2500}\u{2500} v"@ + signed_decimal(
                es[k].version as int,
            ) + " ("@ + fmt_ts_spec(es[k].created_at@) + ") \u{2500}\u{2500}\u{2500}"@ && match es[k].title {
                Some(t) => i + 2 < history_lines_spec(item, es).len() && history_lines_spec(item, es)[i + 1]
                    == t@ && history_lines_spec(item, es)[i + 2] == trim_end_ws(es[k].content@),
                None => i + 1 < history_lines_spec(item, es).len() && history_lines_spec(item, es)[i + 1]
                    == trim_end_ws(es[k].content@),
            },
{
    lemma_version_blocks_contain(es, k);
    let b = version_block(es[k]);
    let vb = version_blocks(es);
    let o = choose|o: int| #[trigger] placed_at(vb, o, b);
    let lines = history_lines_spec(item, es);
    let i = 1 + o + 1;
    assert forall|m: int| 0 <= m < b.len() implies lines[1 + o + m] == b[m] by {
        assert(vb.subrange(o, o + b.len())[m] == vb[o + m]);
    }
    assert(lines[i] == b[1]);
    match es[k].title {
        Some(t) => {
            assert(lines[i + 1] == b[2]);
            assert(lines[i + 2] == b[3]);
        },
        None => {
            assert(lines[i + 1] == b[2]);
        },
    }
}

/// `stash history` starts with the heading `History for 'name' (type):` and
/// ends with the current version: its title where it has one, then its
/// content.
pub proof fn history_ends_with_the_current_version(item: Item, es: Seq<HistoryEntry>)
    ensures
        history_lines_spec(item, es)[0] == "History for '"@ + item.shortname@ + "' ("@ + item.item_type@
            + "):"@,
        history_lines_spec(item, es).last() == trim_end_ws(item.content@),
        item.title matches Some(t) ==> history_lines_spec(item, es)[history_lines_spec(item, es).len() - 2]
            == t@,
{
}

/// What `stash history` prints for an item and its archived versions.
pub fn render_history(item: &Item, entries: &Vec<HistoryEntry>) -> (r: Vec<String>)
    ensures
        strings_view(r@) == history_lines_spec(*item, entries@),
{
    let mut out: Vec<String> = Vec::new();
    let mut h = chars_of("History for '");
    append_chars(&mut h, &chars_of(item.shortname.as_str()));
    append_chars(&mut h, &chars_of("' ("));
    append_chars(&mut h, &chars_of(item.item_type.as_str()));
    append_chars(&mut h, &chars_of("):"));
    push_line(&mut out, h);
    let ghost head = strings_view(out@);
    let mut i: usize = 0;
    assert(entries@.take(0) =~= Seq::<HistoryEntry>::empty());
    assert(head + version_blocks(entries@.take(0)) =~= head);
    while i < entries.len()
        invariant
            i <= entries@.len(),
            strings_view(out@) == head + version_blocks(entries@.take(i as int)),
        decreases entries@.len() - i,
    {
        let e = &entries[i];
        let ghost before = strings_view(out@);
        push_line(&mut out, Vec::new());
        let mut l = chars_of("\u{2500}\u{2500}\u{2500} v");
        append_chars(&mut l, &signed_decimal_chars(e.version));
        append_chars(&mut l, &chars_of(" ("));
        let c = fmt_ts(e.created_at.as_str());
        append_chars(&mut l, &chars_of(c.as_str()));
        append_chars(&mut l, &chars_of(") \u{2500}\u{2500}\u{2500}"));
        push_line(&mut out, l);
        match &e.title {
            Some(t) => push_line(&mut out, chars_of(t.as_str())),
            None => {},
        }
        push_line(&mut out, trim_end_chars(&chars_of(e.content.as_str())));
        assert(strings_view(out@) =~= before + version_block(*e));
        assert(entries@.take(i as int + 1).drop_last() =~= entries@.take(i as int));
        assert(entries@.take(i as int + 1).last() == *e);
        assert(strings_view(out@) =~= head + version_blocks(entries@.take(i as int + 1)));
        i = i + 1;
    }
    assert(entries@.take(entries@.len() as int) =~= entries@);
    push_line(&mut out, Vec::new());
    let mut l = chars_of("\u{2500}\u{2500}\u{2500} current (");
    let u = fmt_ts(item.updated_at.as_str());
    append_chars(&mut l, &chars_of(u.as_str()));
    append_chars(&mut l, &chars_of(") \u{2500}\u{2500}\u{2500}"));
    push_line(&mut out, l);
    match &item.title {
        Some(t) => push_line(&mut out, chars_of(t.as_str())),
        None => {},
    }
    push_line(&mut out, trim_end_chars(&chars_of(item.content.as_str())));
    assert(strings_view(out@) =~= history_lines_spec(*item, entries@));
    out
}

} // verus!
