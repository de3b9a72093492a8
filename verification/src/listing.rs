//! What `stash list` and `stash tags` print.

use vstd::prelude::*;

use crate::search::{lowercase_chars, opt_chars, type_ok};
use crate::sorting::{sort_strings, sorted_of};
use crate::tagging::strings_view;
use crate::text::{
    append_chars, chars_eq, chars_of, decimal, decimal_chars, lowercase, pad_right, push_padded,
    signed_decimal, signed_decimal_chars, str_eq, string_from_chars, utf8_len, utf8_len_chars,
};
use crate::vault::{StoredItem, Tag};

verus! {

/// A row of `stash list`: short name, type, title and sorted tags.
#[derive(Debug)]
pub struct ListRow {
    pub shortname: String,
    pub item_type: String,
    pub title: Option<String>,
    pub tags: Vec<String>,
}

/// The characters of an optional string.
pub open spec fn opt_view(o: Option<String>) -> Option<Seq<char>> {
    match o {
        Some(s) => Some(s@),
        None => None,
    }
}

/// A row as characters.
pub open spec fn row_view(r: ListRow) -> (Seq<char>, Seq<char>, Option<Seq<char>>, Seq<Seq<char>>) {
    (r.shortname@, r.item_type@, opt_view(r.title), strings_view(r.tags@))
}

/// Each row as characters.
pub open spec fn rows_view(v: Seq<ListRow>) -> Seq<(Seq<char>, Seq<char>, Option<Seq<char>>, Seq<Seq<char>>)> {
    v.map_values(|r: ListRow| row_view(r))
}

/// The names of the tags, in order.
pub open spec fn tag_names(tags: Seq<Tag>) -> Seq<Seq<char>> {
    tags.map_values(|t: Tag| t.tag@)
}

/// Whether one of the tags equals one of the filters, ignoring case.
pub open spec fn tags_match_any(tags: Seq<Tag>, filters: Seq<Seq<char>>) -> bool {
    exists|i: int, j: int|
        0 <= i < filters.len() && 0 <= j < tags.len() && lowercase(#[trigger] tags[j].tag@) == lowercase(
            #[trigger] filters[i],
        )
}

/// Whether `stash list` shows the item: it has the type asked for, and, where
/// tags are given, one of them (any of them will do, ignoring case).
pub open spec fn list_keeps(e: StoredItem, filters: Seq<Seq<char>>, ty: Option<Seq<char>>) -> bool {
    type_ok(e.item, ty) && (filters.len() == 0 || tags_match_any(e.tags@, filters))
}

/// The row shown for an item.
pub open spec fn list_row_spec(e: StoredItem) -> (Seq<char>, Seq<char>, Option<Seq<char>>, Seq<Seq<char>>) {
    (e.item.shortname@, e.item.item_type@, opt_view(e.item.title), sorted_of(tag_names(e.tags@)))
}

/// The rows of `stash list`, in the order of the items.
pub open spec fn list_rows_spec(
    es: Seq<StoredItem>,
    filters: Seq<Seq<char>>,
    ty: Option<Seq<char>>,
) -> Seq<(Seq<char>, Seq<char>, Option<Seq<char>>, Seq<Seq<char>>)>
    decreases es.len(),
{
    if es.len() == 0 {
        Seq::empty()
    } else {
        let prev = list_rows_spec(es.drop_last(), filters, ty);
        if list_keeps(es.last(), filters, ty) {
            prev.push(list_row_spec(es.last()))
        } else {
            prev
        }
    }
}

/// Whether some tag, lower-cased, is among the lower-cased filters.
pub(crate) fn any_tag_matches(tags: &Vec<Tag>, filters: &Vec<String>, filters_lc: &Vec<Vec<char>>) -> (r: bool)
    requires
        filters_lc@.len() == filters@.len(),
        forall|i: int| 0 <= i < filters@.len() ==> #[trigger] filters_lc@[i]@ == lowercase(filters@[i]@),
    ensures
        r == tags_match_any(tags@, strings_view(filters@)),
{
    let ghost fs = strings_view(filters@);
    let mut j: usize = 0;
    while j < tags.len()
        invariant
            j <= tags@.len(),
            fs == strings_view(filters@),
            filters_lc@.len() == filters@.len(),
            forall|i: int| 0 <= i < filters@.len() ==> #[trigger] filters_lc@[i]@ == lowercase(filters@[i]@),
            forall|i: int, k: int|
                0 <= i < fs.len() && 0 <= k < j ==> lowercase(#[trigger] tags@[k].tag@) != lowercase(
                    #[trigger] fs[i],
                ),
        decreases tags@.len() - j,
    {
        let tl = lowercase_chars(tags[j].tag.as_str());
        let mut i: usize = 0;
        while i < filters_lc.len()
            invariant
                i <= filters_lc@.len(),
                filters_lc@.len() == filters@.len(),
                fs == strings_view(filters@),
                forall|i: int| 0 <= i < filters@.len() ==> #[trigger] filters_lc@[i]@ == lowercase(filters@[i]@),
                j < tags@.len(),
                tl@ == lowercase(tags@[j as int].tag@),
                forall|k: int| 0 <= k < i ==> tl@ != lowercase(#[trigger] fs[k]),
            decreases filters_lc@.len() - i,
        {
            if chars_eq(&tl, &filters_lc[i]) {
                assert(fs[i as int] == filters@[i as int]@);
                assert(lowercase(tags@[j as int].tag@) == lowercase(fs[i as int]));
                return true;
            }
            assert(fs[i as int] == filters@[i as int]@);
            i = i + 1;
        }
        j = j + 1;
    }
    false
}

/// Each filter lower-cased.
pub(crate) fn lowercase_all(tag_filters: &Vec<String>) -> (r: Vec<Vec<char>>)
    ensures
        r@.len() == tag_filters@.len(),
        forall|i: int| 0 <= i < tag_filters@.len() ==> #[trigger] r@[i]@ == lowercase(tag_filters@[i]@),
{
    let mut filters_lc: Vec<Vec<char>> = Vec::new();
    let mut k: usize = 0;
    while k < tag_filters.len()
        invariant
            k <= tag_filters@.len(),
            filters_lc@.len() == k,
            forall|i: int| 0 <= i < k ==> #[trigger] filters_lc@[i]@ == lowercase(tag_filters@[i]@),
        decreases tag_filters@.len() - k,
    {
        filters_lc.push(lowercase_chars(tag_filters[k].as_str()));
        k = k + 1;
    }
    filters_lc
}

proof fn lemma_list_rows_include(es: Seq<StoredItem>, filters: Seq<Seq<char>>, ty: Option<Seq<char>>, k: int)
    requires
        0 <= k < es.len(),
        list_keeps(es[k], filters, ty),
    ensures
        list_rows_spec(es, filters, ty).contains(list_row_spec(es[k])),
    decreases es.len(),
{
    let prev = list_rows_spec(es.drop_last(), filters, ty);
    if k == es.len() - 1 {
        assert(list_rows_spec(es, filters, ty)[prev.len() as int] == list_row_spec(es[k]));
    } else {
        assert(es.drop_last()[k] == es[k]);
        lemma_list_rows_include(es.drop_last(), filters, ty, k);
        let j = choose|j: int| 0 <= j < prev.len() && prev[j] == list_row_spec(es[k]);
        if list_keeps(es.last(), filters, ty) {
            assert(list_rows_spec(es, filters, ty)[j] == prev[j]);
        }
    }
}

proof fn lemma_list_rows_from_kept(es: Seq<StoredItem>, filters: Seq<Seq<char>>, ty: Option<Seq<char>>, j: int)
    requires
        0 <= j < list_rows_spec(es, filters, ty).len(),
    ensures
        exists|k: int|
            0 <= k < es.len() && list_keeps(es[k], filters, ty) && list_rows_spec(es, filters, ty)[j]
                == list_row_spec(#[trigger] es[k]),
    decreases es.len(),
{
    let init = es.drop_last();
    let prev = list_rows_spec(init, filters, ty);
    if j < prev.len() {
        lemma_list_rows_from_kept(init, filters, ty, j);
        let k = choose|k: int|
            0 <= k < init.len() && list_keeps(init[k], filters, ty) && prev[j] == list_row_spec(
                #[trigger] init[k],
            );
        assert(es[k] == init[k]);
        if list_keeps(es.last(), filters, ty) {
            assert(list_rows_spec(es, filters, ty)[j] == prev[j]);
        }
    } else {
        assert(es[es.len() - 1] == es.last());
    }
}

/// `stash list` shows a row for every item of the type asked for that
/// carries one of the given tags, ignoring case (every item where no tag is
/// given): its name, type, title and its tags in sorted order.
pub proof fn list_shows_the_matching_items(
    es: Seq<StoredItem>,
    filters: Seq<Seq<char>>,
    ty: Option<Seq<char>>,
    k: int,
)
    requires
        0 <= k < es.len(),
        ty matches Some(t) ==> es[k].item.item_type@ == t,
        filters.len() == 0 || exists|i: int, j: int|
            0 <= i < filters.len() && 0 <= j < es[k].tags@.len() && lowercase(#[trigger] es[k].tags@[j].tag@)
                == lowercase(#[trigger] filters[i]),
    ensures
        list_rows_spec(es, filters, ty).contains(
            (
                es[k].item.shortname@,
                es[k].item.item_type@,
                opt_view(es[k].item.title),
                sorted_of(tag_names(es[k].tags@)),
            ),
        ),
{
    lemma_list_rows_include(es, filters, ty, k);
}

/// Every row of `stash list` is that of an item of the type asked for that
/// carries one of the given tags, ignoring case (any item where no tag is
/// given).
pub proof fn list_shows_only_matching_items(
    es: Seq<StoredItem>,
    filters: Seq<Seq<char>>,
    ty: Option<Seq<char>>,
    j: int,
)
    requires
        0 <= j < list_rows_spec(es, filters, ty).len(),
    ensures
        exists|k: int|
            #![trigger es[k]]
            0 <= k < es.len() && (ty matches Some(t) ==> es[k].item.item_type@ == t) && (filters.len() == 0
                || exists|i: int, m: int|
                0 <= i < filters.len() && 0 <= m < es[k].tags@.len() && lowercase(
                    #[trigger] es[k].tags@[m].tag@,
                ) == lowercase(#[trigger] filters[i])) && list_rows_spec(es, filters, ty)[j] == (
                es[k].item.shortname@,
                es[k].item.item_type@,
                opt_view(es[k].item.title),
                sorted_of(tag_names(es[k].tags@)),
            ),
{
    lemma_list_rows_from_kept(es, filters, ty, j);
}

/// The rows that `stash list` shows for the items (in short-name order):
/// those of the given type that carry one of the given tags, ignoring case
/// (all of them where no tag is given), each with its tags sorted.
pub fn list_rows(entries: &Vec<StoredItem>, tag_filters: &Vec<String>, type_filter: Option<&str>) -> (r: Vec<ListRow>)
    ensures
        rows_view(r@) == list_rows_spec(entries@, strings_view(tag_filters@), opt_chars(type_filter)),
{
    let ghost fs = strings_view(tag_filters@);
    let ghost ty = opt_chars(type_filter);
    let filters_lc = lowercase_all(tag_filters);
    let mut out: Vec<ListRow> = Vec::new();
    let mut i: usize = 0;
    assert(entries@.take(0) =~= Seq::<StoredItem>::empty());
    while i < entries.len()
        invariant
            i <= entries@.len(),
            fs == strings_view(tag_filters@),
            ty == opt_chars(type_filter),
            filters_lc@.len() == tag_filters@.len(),
            forall|i: int| 0 <= i < tag_filters@.len() ==> #[trigger] filters_lc@[i]@ == lowercase(tag_filters@[i]@),
            rows_view(out@) == list_rows_spec(entries@.take(i as int), fs, ty),
        decreases entries@.len() - i,
    {
        let e = &entries[i];
        let ghost cur = entries@.take(i as int + 1);
        assert(cur.drop_last() =~= entries@.take(i as int));
        assert(cur.last() == *e);
        let type_matches = match type_filter {
            Some(t) => str_eq(e.item.item_type.as_str(), t),
            None => true,
        };
        let keep = type_matches && (tag_filters.len() == 0 || any_tag_matches(&e.tags, tag_filters, &filters_lc));
        if keep {
            let mut names: Vec<String> = Vec::new();
            let mut j: usize = 0;
            while j < e.tags.len()
                invariant
                    j <= e.tags@.len(),
                    strings_view(names@) == tag_names(e.tags@.take(j as int)),
                decreases e.tags@.len() - j,
            {
                names.push(e.tags[j].tag.clone());
                assert(tag_names(e.tags@.take(j as int + 1)) =~= tag_names(e.tags@.take(j as int)).push(
                    e.tags@[j as int].tag@,
                ));
                assert(strings_view(names@) =~= tag_names(e.tags@.take(j as int + 1)));
                j = j + 1;
            }
            assert(e.tags@.take(e.tags@.len() as int) =~= e.tags@);
            let sorted = sort_strings(names);
            let title = match &e.item.title {
                Some(t) => Some(t.clone()),
                None => None,
            };
            let row = ListRow {
                shortname: e.item.shortname.clone(),
                item_type: e.item.item_type.clone(),
                title,
                tags: sorted,
            };
            let ghost old_out = out@;
            out.push(row);
            assert(rows_view(out@) =~= rows_view(old_out).push(list_row_spec(*e)));
        }
        i = i + 1;
    }
    assert(entries@.take(entries@.len() as int) =~= entries@);
    out
}

/// The parts joined by `sep`.
pub open spec fn join_with(parts: Seq<Seq<char>>, sep: Seq<char>) -> Seq<char>
    decreases parts.len(),
{
    if parts.len() == 0 {
        Seq::empty()
    } else if parts.len() == 1 {
        parts[0]
    } else {
        join_with(parts.drop_last(), sep) + sep + parts.last()
    }
}

/// Appends the strings joined by `sep` (what `join(sep)` gives).
pub fn push_joined(out: &mut Vec<char>, parts: &Vec<String>, sep: &str)
    ensures
        final(out)@ == old(out)@ + join_with(strings_view(parts@), sep@),
{
    let ghost base = out@;
    let sv = chars_of(sep);
    let mut i: usize = 0;
    assert(strings_view(parts@).take(0) =~= Seq::<Seq<char>>::empty());
    assert(base + join_with(Seq::<Seq<char>>::empty(), sep@) =~= base);
    while i < parts.len()
        invariant
            i <= parts@.len(),
            sv@ == sep@,
            out@ == base + join_with(strings_view(parts@).take(i as int), sep@),
        decreases parts@.len() - i,
    {
        let ghost pre = out@;
        let ghost cur = strings_view(parts@).take(i as int + 1);
        assert(cur.drop_last() =~= strings_view(parts@).take(i as int));
        assert(cur.last() == parts@[i as int]@);
        if i > 0 {
            append_chars(out, &sv);
        }
        append_chars(out, &chars_of(parts[i].as_str()));
        if i == 0 {
            assert(cur =~= seq![parts@[0]@]);
            assert(join_with(cur, sep@) == parts@[0]@);
            assert(out@ =~= base + join_with(cur, sep@));
        } else {
            assert(out@ =~= base + join_with(cur, sep@));
        }
        i = i + 1;
    }
    assert(strings_view(parts@).take(parts@.len() as int) =~= strings_view(parts@));
}

/// `n` box-drawing horizontal lines.
pub open spec fn rule(n: nat) -> Seq<char> {
    Seq::new(n, |i: int| '\u{2500}')
}

fn rule_chars(n: u128) -> (r: Vec<char>)
    ensures
        r@ == rule(n as nat),
{
    let mut out: Vec<char> = Vec::new();
    let mut k: u128 = 0;
    while k < n
        invariant
            k <= n,
            out@ == rule(k as nat),
        decreases n - k,
    {
        out.push('\u{2500}');
        k = k + 1;
        assert(out@ =~= rule(k as nat));
    }
    out
}

/// The larger of two numbers.
pub open spec fn max_nat(a: nat, b: nat) -> nat {
    if a >= b {
        a
    } else {
        b
    }
}

/// The width of the NAME column: the longest short name in bytes, and at
/// least 4.
pub open spec fn name_width(rows: Seq<(Seq<char>, Seq<char>, Option<Seq<char>>, Seq<Seq<char>>)>) -> nat
    decreases rows.len(),
{
    if rows.len() == 0 {
        4
    } else {
        max_nat(name_width(rows.drop_last()), utf8_len(rows.last().0))
    }
}

/// The width of the TITLE column: the longest title in bytes, and at least 5.
pub open spec fn title_width(rows: Seq<(Seq<char>, Seq<char>, Option<Seq<char>>, Seq<Seq<char>>)>) -> nat
    decreases rows.len(),
{
    if rows.len() == 0 {
        5
    } else {
        match rows.last().2 {
            Some(t) => max_nat(title_width(rows.drop_last()), utf8_len(t)),
            None => title_width(rows.drop_last()),
        }
    }
}

/// Whether some row has a title.
pub open spec fn has_titles(rows: Seq<(Seq<char>, Seq<char>, Option<Seq<char>>, Seq<Seq<char>>)>) -> bool
    decreases rows.len(),
{
    rows.len() > 0 && (has_titles(rows.drop_last()) || rows.last().2 is Some)
}

/// The header line of the table.
pub open spec fn list_header(nw: nat, tw: nat, titles: bool) -> Seq<char> {
    if titles {
        pad_right("NAME"@, nw) + "  "@ + pad_right("TYPE"@, 4) + "  "@ + pad_right("TITLE"@, tw) + "  TAGS"@
    } else {
        pad_right("NAME"@, nw) + "  "@ + pad_right("TYPE"@, 4) + "  TAGS"@
    }
}

/// The line under the header.
pub open spec fn list_rule(nw: nat, tw: nat, titles: bool) -> Seq<char> {
    if titles {
        rule(nw + 2 + 4 + 2 + tw + 2 + 20)
    } else {
        rule(nw + 2 + 4 + 2 + 20)
    }
}

/// The line of a row.
pub open spec fn list_line(
    r: (Seq<char>, Seq<char>, Option<Seq<char>>, Seq<Seq<char>>),
    nw: nat,
    tw: nat,
    titles: bool,
) -> Seq<char> {
    if titles {
        pad_right(r.0, nw) + "  "@ + pad_right(r.1, 4) + "  "@ + pad_right(
            match r.2 {
                Some(t) => t,
                None => Seq::empty(),
            },
            tw,
        ) + "  "@ + join_with(r.3, ", "@)
    } else {
        pad_right(r.0, nw) + "  "@ + pad_right(r.1, 4) + "  "@ + join_with(r.3, ", "@)
    }
}

/// Each filter in double quotes, joined by `, `.
pub open spec fn quoted_filters(filters: Seq<Seq<char>>) -> Seq<char> {
    join_with(filters.map_values(|f: Seq<char>| "\""@ + f + "\""@), ", "@)
}

/// The lines that `stash list` prints.
pub open spec fn list_lines_spec(
    vault_empty: bool,
    rows: Seq<(Seq<char>, Seq<char>, Option<Seq<char>>, Seq<Seq<char>>)>,
    filters: Seq<Seq<char>>,
) -> Seq<Seq<char>> {
    if vault_empty {
        seq!["Vault is empty."@]
    } else if rows.len() == 0 {
        seq!["No items tagged with: "@ + quoted_filters(filters) + "."@]
    } else {
        let nw = name_width(rows);
        let tw = title_width(rows);
        let t = has_titles(rows);
        seq![list_header(nw, tw, t), list_rule(nw, tw, t)] + rows.map_values(
            |r: (Seq<char>, Seq<char>, Option<Seq<char>>, Seq<Seq<char>>)| list_line(r, nw, tw, t),
        ) + seq![Seq::<char>::empty(), decimal(rows.len()) + " item(s)."@]
    }
}

proof fn lemma_utf8_len_bound(s: Seq<char>)
    ensures
        utf8_len(s) <= 4 * s.len(),
    decreases s.len(),
{
    if s.len() > 0 {
        lemma_utf8_len_bound(s.drop_last());
    }
}

/// The column widths and whether there are titles.
fn widths(rows: &Vec<ListRow>) -> (r: (u128, u128, bool))
    ensures
        r.0 == name_width(rows_view(rows@)),
        r.1 == title_width(rows_view(rows@)),
        r.2 == has_titles(rows_view(rows@)),
        r.0 <= 4 * 0x1_0000_0000_0000_0000,
        r.1 <= 4 * 0x1_0000_0000_0000_0000,
{
    let ghost rv = rows_view(rows@);
    let mut nw: u128 = 4;
    let mut tw: u128 = 5;
    let mut t = false;
    let mut i: usize = 0;
    assert(rv.take(0) =~= Seq::<(Seq<char>, Seq<char>, Option<Seq<char>>, Seq<Seq<char>>)>::empty());
    while i < rows.len()
        invariant
            i <= rows@.len(),
            rv == rows_view(rows@),
            nw == name_width(rv.take(i as int)),
            tw == title_width(rv.take(i as int)),
            t == has_titles(rv.take(i as int)),
            nw <= 4 * 0x1_0000_0000_0000_0000,
            tw <= 4 * 0x1_0000_0000_0000_0000,
        decreases rows@.len() - i,
    {
        let r = &rows[i];
        let ghost cur = rv.take(i as int + 1);
        assert(cur.drop_last() =~= rv.take(i as int));
        assert(cur.last() == row_view(*r));
        let sc = chars_of(r.shortname.as_str());
        let w = utf8_len_chars(&sc);
        let scn = sc.len();
        proof {
            lemma_utf8_len_bound(sc@);
            assert(scn == sc@.len());
        }
        if w > nw {
            nw = w;
        }
        match &r.title {
            Some(tt) => {
                let tc = chars_of(tt.as_str());
                let x = utf8_len_chars(&tc);
                let tcn = tc.len();
                proof {
                    lemma_utf8_len_bound(tc@);
                    assert(tcn == tc@.len());
                }
                if x > tw {
                    tw = x;
                }
                t = true;
            },
            None => {},
        }
        i = i + 1;
    }
    assert(rv.take(rows@.len() as int) =~= rv);
    (nw, tw, t)
}

/// Appends the line of a row.
fn push_list_line(out: &mut Vec<char>, r: &ListRow, nw: u128, tw: u128, titles: bool)
    ensures
        final(out)@ == old(out)@ + list_line(row_view(*r), nw as nat, tw as nat, titles),
{
    let ghost base = out@;
    push_padded(out, &chars_of(r.shortname.as_str()), nw);
    append_chars(out, &chars_of("  "));
    push_padded(out, &chars_of(r.item_type.as_str()), 4);
    append_chars(out, &chars_of("  "));
    if titles {
        let tc = match &r.title {
            Some(t) => chars_of(t.as_str()),
            None => Vec::new(),
        };
        push_padded(out, &tc, tw);
        append_chars(out, &chars_of("  "));
    }
    push_joined(out, &r.tags, ", ");
    assert(out@ =~= base + list_line(row_view(*r), nw as nat, tw as nat, titles));
}

/// Appends each filter in double quotes, joined by `, `.
fn push_quoted(out: &mut Vec<char>, filters: &Vec<String>)
    ensures
        final(out)@ == old(out)@ + quoted_filters(strings_view(filters@)),
{
    let mut quoted: Vec<String> = Vec::new();
    let mut i: usize = 0;
    while i < filters.len()
        invariant
            i <= filters@.len(),
            strings_view(quoted@) == strings_view(filters@).take(i as int).map_values(
                |f: Seq<char>| "\""@ + f + "\""@,
            ),
        decreases filters@.len() - i,
    {
        let mut q = chars_of("\"");
        append_chars(&mut q, &chars_of(filters[i].as_str()));
        append_chars(&mut q, &chars_of("\""));
        let ghost old_q = strings_view(quoted@);
        let qs = string_from_chars(q);
        quoted.push(qs);
        assert(strings_view(quoted@) =~= old_q.push(qs@));
        assert(qs@ == "\""@ + strings_view(filters@)[i as int] + "\""@);
        assert(strings_view(quoted@) =~= strings_view(filters@).take(i as int + 1).map_values(
            |f: Seq<char>| "\""@ + f + "\""@,
        ));
        i = i + 1;
    }
    assert(strings_view(filters@).take(filters@.len() as int) =~= strings_view(filters@));
    push_joined(out, &quoted, ", ");
}

/// The lines of `stash list` for the rows it shows; `vault_empty` where the
/// vault holds no item at all.
pub fn render_list(vault_empty: bool, rows: &Vec<ListRow>, tag_filters: &Vec<String>) -> (r: Vec<String>)
    ensures
        strings_view(r@) == list_lines_spec(vault_empty, rows_view(rows@), strings_view(tag_filters@)),
{
    let ghost rv = rows_view(rows@);
    if vault_empty {
        let r = vec![string_from_chars(chars_of("Vault is empty."))];
        assert(strings_view(r@) =~= seq!["Vault is empty."@]);
        return r;
    }
    if rows.len() == 0 {
        let mut l = chars_of("No items tagged with: ");
        push_quoted(&mut l, tag_filters);
        append_chars(&mut l, &chars_of("."));
        let r = vec![string_from_chars(l)];
        assert(strings_view(r@) =~= list_lines_spec(vault_empty, rv, strings_view(tag_filters@)));
        return r;
    }
    let (nw, tw, titles) = widths(rows);
    let mut out: Vec<String> = Vec::new();
    let mut h: Vec<char> = Vec::new();
    push_padded(&mut h, &chars_of("NAME"), nw);
    append_chars(&mut h, &chars_of("  "));
    push_padded(&mut h, &chars_of("TYPE"), 4);
    if titles {
        append_chars(&mut h, &chars_of("  "));
        push_padded(&mut h, &chars_of("TITLE"), tw);
    }
    append_chars(&mut h, &chars_of("  TAGS"));
    assert(h@ =~= list_header(nw as nat, tw as nat, titles));
    out.push(string_from_chars(h));
    let n: u128 = if titles {
        nw + 2 + 4 + 2 + tw + 2 + 20
    } else {
        nw + 2 + 4 + 2 + 20
    };
    out.push(string_from_chars(rule_chars(n)));
    let ghost head = seq![list_header(nw as nat, tw as nat, titles), list_rule(nw as nat, tw as nat, titles)];
    assert(strings_view(out@) =~= head);
    let mut i: usize = 0;
    while i < rows.len()
        invariant
            i <= rows@.len(),
            rv == rows_view(rows@),
            strings_view(out@) == head + rv.take(i as int).map_values(
                |r: (Seq<char>, Seq<char>, Option<Seq<char>>, Seq<Seq<char>>)|
                    list_line(r, nw as nat, tw as nat, titles),
            ),
        decreases rows@.len() - i,
    {
        let mut l: Vec<char> = Vec::new();
        push_list_line(&mut l, &rows[i], nw, tw, titles);
        let ghost old_o = strings_view(out@);
        let ls = string_from_chars(l);
        out.push(ls);
        assert(strings_view(out@) =~= old_o.push(ls@));
        assert(rv[i as int] == row_view(rows@[i as int]));
        assert(ls@ == list_line(rv[i as int], nw as nat, tw as nat, titles));
        assert(strings_view(out@) =~= head + rv.take(i as int + 1).map_values(
            |r: (Seq<char>, Seq<char>, Option<Seq<char>>, Seq<Seq<char>>)|
                list_line(r, nw as nat, tw as nat, titles),
        ));
        i = i + 1;
    }
    assert(rv.take(rows@.len() as int) =~= rv);
    out.push(String::new());
    let mut c = decimal_chars(rows.len() as u128);
    append_chars(&mut c, &chars_of(" item(s)."));
    out.push(string_from_chars(c));
    assert(strings_view(out@) =~= list_lines_spec(vault_empty, rv, strings_view(tag_filters@)));
    out
}

/// What `stash list` prints for the items of the vault (in short-name
/// order), the tag filters and the type filter.
pub fn list(entries: &Vec<StoredItem>, tag_filters: &Vec<String>, type_filter: Option<&str>) -> (r: Vec<String>)
    ensures
        strings_view(r@) == list_lines_spec(
            entries@.len() == 0,
            list_rows_spec(entries@, strings_view(tag_filters@), opt_chars(type_filter)),
            strings_view(tag_filters@),
        ),
{
    let rows = list_rows(entries, tag_filters, type_filter);
    render_list(entries.len() == 0, &rows, tag_filters)
}

/// The width of the TAG column: the longest tag in bytes, and at least 3.
pub open spec fn tag_width(tags: Seq<(Seq<char>, i64)>) -> nat
    decreases tags.len(),
{
    if tags.len() == 0 {
        3
    } else {
        max_nat(tag_width(tags.drop_last()), utf8_len(tags.last().0))
    }
}

/// Each tag with its count, as characters.
pub open spec fn counts_view(v: Seq<(String, i64)>) -> Seq<(Seq<char>, i64)> {
    v.map_values(|p: (String, i64)| (p.0@, p.1))
}

/// The lines that `stash tags` prints for the tags and their counts.
pub open spec fn tags_lines_spec(tags: Seq<(Seq<char>, i64)>) -> Seq<Seq<char>> {
    if tags.len() == 0 {
        seq!["No tags in vault."@]
    } else {
        let w = tag_width(tags);
        seq![pad_right("TAG"@, w) + "  ITEMS"@, rule(w + 2 + 5)] + tags.map_values(
            |p: (Seq<char>, i64)| pad_right(p.0, w) + "  "@ + signed_decimal(p.1 as int),
        ) + seq![Seq::<char>::empty(), decimal(tags.len()) + " tag(s)."@]
    }
}

/// What `stash tags` prints for every tag in use with the number of items
/// that carry it (in tag order).
pub fn render_tags(all_tags: &Vec<(String, i64)>) -> (r: Vec<String>)
    ensures
        strings_view(r@) == tags_lines_spec(counts_view(all_tags@)),
{
    let ghost tv = counts_view(all_tags@);
    if all_tags.len() == 0 {
        let r = vec![string_from_chars(chars_of("No tags in vault."))];
        assert(strings_view(r@) =~= seq!["No tags in vault."@]);
        return r;
    }
    let mut w: u128 = 3;
    let mut i: usize = 0;
    assert(tv.take(0) =~= Seq::<(Seq<char>, i64)>::empty());
    while i < all_tags.len()
        invariant
            i <= all_tags@.len(),
            tv == counts_view(all_tags@),
            w == tag_width(tv.take(i as int)),
            w <= 4 * 0x1_0000_0000_0000_0000,
        decreases all_tags@.len() - i,
    {
        let ghost cur = tv.take(i as int + 1);
        assert(cur.drop_last() =~= tv.take(i as int));
        let tc = chars_of(all_tags[i].0.as_str());
        let x = utf8_len_chars(&tc);
        let tcn = tc.len();
        proof {
            lemma_utf8_len_bound(tc@);
            assert(tcn == tc@.len());
        }
        if x > w {
            w = x;
        }
        i = i + 1;
    }
    assert(tv.take(all_tags@.len() as int) =~= tv);
    let mut out: Vec<String> = Vec::new();
    let mut h: Vec<char> = Vec::new();
    push_padded(&mut h, &chars_of("TAG"), w);
    append_chars(&mut h, &chars_of("  ITEMS"));
    out.push(string_from_chars(h));
    out.push(string_from_chars(rule_chars(w + 2 + 5)));
    let ghost head = seq![pad_right("TAG"@, w as nat) + "  ITEMS"@, rule(w as nat + 2 + 5)];
    assert(strings_view(out@) =~= head);
    let mut i: usize = 0;
    while i < all_tags.len()
        invariant
            i <= all_tags@.len(),
            tv == counts_view(all_tags@),
            strings_view(out@) == head + tv.take(i as int).map_values(
                |p: (Seq<char>, i64)| pad_right(p.0, w as nat) + "  "@ + signed_decimal(p.1 as int),
            ),
        decreases all_tags@.len() - i,
    {
        let mut l: Vec<char> = Vec::new();
        push_padded(&mut l, &chars_of(all_tags[i].0.as_str()), w);
        append_chars(&mut l, &chars_of("  "));
        append_chars(&mut l, &signed_decimal_chars(all_tags[i].1));
        let ghost old_o = strings_view(out@);
        let ls = string_from_chars(l);
        out.push(ls);
        assert(strings_view(out@) =~= old_o.push(ls@));
        assert(tv[i as int] == (all_tags@[i as int].0@, all_tags@[i as int].1));
        assert(ls@ == pad_right(tv[i as int].0, w as nat) + "  "@ + signed_decimal(tv[i as int].1 as int));
        assert(strings_view(out@) =~= head + tv.take(i as int + 1).map_values(
            |p: (Seq<char>, i64)| pad_right(p.0, w as nat) + "  "@ + signed_decimal(p.1 as int),
        ));
        i = i + 1;
    }
    assert(tv.take(all_tags@.len() as int) =~= tv);
    out.push(String::new());
    let mut c = decimal_chars(all_tags.len() as u128);
    append_chars(&mut c, &chars_of(" tag(s)."));
    out.push(string_from_chars(c));
    assert(strings_view(out@) =~= tags_lines_spec(tv));
    out
}

} // verus!
