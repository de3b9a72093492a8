//! Finding items by text, tag and type, and the snippets shown for each hit.

use vstd::prelude::*;

use crate::text::{
    append_chars, char_count_before_byte, char_pos_at_byte, chars_eq, chars_of, ellipsis,
    find_chars, find_first, lowercase, preview, preview_of, signed_decimal, signed_decimal_chars,
    slice_chars, snippet_window, str_eq, string_from_chars, to_lowercase, trim_chars, trim_ws,
    utf8_len, utf8_len_of_prefix, window_chars, decimal, decimal_chars, pad_right, push_padded,
    utf8_len_chars,
};
use crate::listing::{any_tag_matches, lowercase_all, tags_match_any};
use crate::tagging::strings_view;
use crate::vault::{HistoryEntry, Item, StoredItem, Tag};

verus! {

/// The characters of an optional string.
pub open spec fn opt_chars(o: Option<&str>) -> Option<Seq<char>> {
    match o {
        Some(s) => Some(s@),
        None => None,
    }
}

/// The first `n` characters of `s` (all of them when `s` is shorter).
pub open spec fn take_upto(s: Seq<char>, n: nat) -> Seq<char> {
    if n <= s.len() {
        s.take(n as int)
    } else {
        s
    }
}

/// The snippet shown for `text` when searching for `query`: the window of
/// `context` characters around the first case-insensitive occurrence, or,
/// without one, the first `2 * context` characters trimmed and followed by `…`.
pub open spec fn snippet_spec(text: Seq<char>, query: Seq<char>, context: nat) -> Seq<char> {
    let tl = lowercase(text);
    let ql = lowercase(query);
    match find_first(tl, ql) {
        None => trim_ws(take_upto(text, 2 * context)).push(ellipsis()),
        Some(k) => match char_pos_at_byte(text, utf8_len(tl.take(k)) as int) {
            Some(j) => snippet_window(text, j as nat, (j + ql.len()) as nat, context),
            None => Seq::empty(),
        },
    }
}

/// When `snippet` completes: the byte offset of the match in the lower-cased
/// text is a character boundary of the text itself, and no count overflows.
pub open spec fn snippet_defined(text: Seq<char>, query: Seq<char>, context: nat) -> bool {
    let tl = lowercase(text);
    let ql = lowercase(query);
    match find_first(tl, ql) {
        None => 2 * context <= usize::MAX,
        Some(k) => match char_pos_at_byte(text, utf8_len(tl.take(k)) as int) {
            Some(j) => j + ql.len() + context <= usize::MAX,
            None => false,
        },
    }
}

/// Lower-cases `s` and returns its characters.
pub(crate) fn lowercase_chars(s: &str) -> (r: Vec<char>)
    ensures
        r@ == lowercase(s@),
{
    let l = to_lowercase(s);
    chars_of(l.as_str())
}

/// The snippet of `text` around `query`, or `None` where `snippet` has no answer.
pub fn checked_snippet(text: &str, query: &str, context_chars: usize) -> (r: Option<String>)
    ensures
        r is Some <==> snippet_defined(text@, query@, context_chars as nat),
        r matches Some(s) ==> s@ == snippet_spec(text@, query@, context_chars as nat),
{
    let chars = chars_of(text);
    let tl = lowercase_chars(text);
    let ql = lowercase_chars(query);
    match find_chars(&tl, &ql) {
        None => {
            if context_chars > usize::MAX / 2 {
                return None;
            }
            let n = context_chars * 2;
            let take = if n <= chars.len() {
                n
            } else {
                chars.len()
            };
            let pre = slice_chars(&chars, 0, take);
            assert(pre@ =~= take_upto(text@, 2 * context_chars as nat));
            let mut t = trim_chars(&pre);
            t.push('\u{2026}');
            Some(string_from_chars(t))
        },
        Some(k) => {
            let b = utf8_len_of_prefix(&tl, k);
            match char_count_before_byte(&chars, b) {
                None => None,
                Some(j) => {
                    if j > usize::MAX - ql.len() || j + ql.len() > usize::MAX - context_chars {
                        return None;
                    }
                    let w = window_chars(&chars, j, j + ql.len(), context_chars);
                    Some(string_from_chars(w))
                },
            }
        },
    }
}

/// The snippet of `text` around the first case-insensitive occurrence of
/// `query`, with `context_chars` characters of context on each side.
pub fn snippet(text: &str, query: &str, context_chars: usize) -> (r: String)
    requires
        snippet_defined(text@, query@, context_chars as nat),
    ensures
        r@ == snippet_spec(text@, query@, context_chars as nat),
{
    match checked_snippet(text, query, context_chars) {
        Some(s) => s,
        None => String::new(),
    }
}

#[verifier::external_type_specification]
#[verifier::external_body]
pub struct ExRegex(regex::Regex);

#[verifier::external_type_specification]
#[verifier::external_body]
pub struct ExRegexError(regex::Error);

/// Whether the `regex` crate accepts `pattern`.
pub uninterp spec fn regex_compiles(pattern: Seq<char>) -> bool;

/// The message of a pattern error (its `Display` text).
#[verifier::external_body]
fn regex_error_message(e: &regex::Error) -> String {
    e.to_string()
}

/// The byte range of the leftmost match that the `regex` crate reports for
/// `pattern` in `text`.
pub uninterp spec fn regex_leftmost(pattern: Seq<char>, text: Seq<char>) -> Option<(int, int)>;

/// A compiled regular expression, with the pattern it was compiled from.
pub struct CompiledRegex {
    re: regex::Regex,
    source: Ghost<Seq<char>>,
}

impl CompiledRegex {
    /// The pattern this was compiled from.
    pub closed spec fn source(&self) -> Seq<char> {
        self.source@
    }
}

/// Compiles `pattern` (`regex::Regex::new`). Claimed of it: it succeeds
/// exactly when the pattern is accepted, which is named `regex_compiles`,
/// and the compiled expression records `pattern` as its source.
#[verifier::external_body]
fn compile_regex(pattern: &str) -> (r: Result<CompiledRegex, regex::Error>)
    ensures
        r is Ok <==> regex_compiles(pattern@),
        r matches Ok(c) ==> c.source() == pattern@,
{
    match regex::Regex::new(pattern) {
        Ok(re) => Ok(CompiledRegex { re, source: Ghost(pattern@) }),
        Err(e) => Err(e),
    }
}

/// The byte range of the leftmost match in `text` (`Regex::find`, then
/// `Match::start` and `Match::end`). Claimed of it: the range is named
/// `regex_leftmost` (of the pattern that `re` was compiled from), and both
/// ends lie on character boundaries of `text`, start before end.
#[verifier::external_body]
fn regex_find(re: &CompiledRegex, text: &str) -> (r: Option<(usize, usize)>)
    ensures
        r matches Some((s, e)) ==> regex_leftmost(re.source(), text@) == Some((s as int, e as int))
            && s <= e && char_pos_at_byte(text@, s as int) is Some && char_pos_at_byte(
            text@,
            e as int,
        ) is Some,
        r is None ==> regex_leftmost(re.source(), text@) is None,
{
    match re.re.find(text) {
        Some(m) => Some((m.start(), m.end())),
        None => None,
    }
}

/// Why a search could not run.
#[derive(Debug)]
pub enum SearchError {
    /// Neither a pattern, a tag nor a type was given.
    MissingCriteria,
    /// `--regex` was given without a pattern.
    RegexNeedsPattern,
    /// The regular expression does not compile; the text says why.
    InvalidRegex(String),
}

/// How item text is matched against a search pattern.
pub enum Matcher {
    /// Case-insensitive substring search; holds the lower-cased pattern.
    Literal(String),
    /// A compiled regular expression (case-sensitive unless it says otherwise).
    Regex(CompiledRegex),
}

/// The context shown on each side of a match.
pub open spec fn match_context() -> nat {
    40
}

/// The snippet for a literal (already lower-cased) pattern `q` in `text`.
pub open spec fn literal_snippet_spec(text: Seq<char>, q: Seq<char>) -> Option<Seq<char>> {
    let tl = lowercase(text);
    match find_first(tl, q) {
        None => None,
        Some(k) => match char_pos_at_byte(text, utf8_len(tl.take(k)) as int) {
            Some(j) => Some(snippet_window(text, j as nat, (j + q.len()) as nat, match_context())),
            None => None,
        },
    }
}

/// When the literal snippet can be cut (see `snippet_defined`).
pub open spec fn literal_snippet_defined(text: Seq<char>, q: Seq<char>) -> bool {
    let tl = lowercase(text);
    match find_first(tl, q) {
        None => true,
        Some(k) => match char_pos_at_byte(text, utf8_len(tl.take(k)) as int) {
            Some(j) => j + q.len() + match_context() <= usize::MAX,
            None => false,
        },
    }
}

/// The snippet around a match at byte range `m` of `text`, if there is one.
pub open spec fn range_snippet_spec(text: Seq<char>, m: Option<(usize, usize)>) -> Option<Seq<char>> {
    match m {
        None => None,
        Some((s, e)) => Some(
            snippet_window(
                text,
                char_pos_at_byte(text, s as int)->0 as nat,
                char_pos_at_byte(text, e as int)->0 as nat,
                match_context(),
            ),
        ),
    }
}

/// The snippet around the leftmost match of the regular expression
/// `pattern` in `text`, if there is one.
pub open spec fn regex_snippet_spec(text: Seq<char>, pattern: Seq<char>) -> Option<Seq<char>> {
    match regex_leftmost(pattern, text) {
        None => None,
        Some((s, e)) => Some(
            snippet_window(
                text,
                char_pos_at_byte(text, s)->0 as nat,
                char_pos_at_byte(text, e)->0 as nat,
                match_context(),
            ),
        ),
    }
}

proof fn lemma_char_pos_mono(text: Seq<char>, s: int, e: int)
    requires
        s <= e,
        char_pos_at_byte(text, s) is Some,
        char_pos_at_byte(text, e) is Some,
    ensures
        char_pos_at_byte(text, s)->0 <= char_pos_at_byte(text, e)->0 <= text.len(),
{
    let a = char_pos_at_byte(text, s)->0;
    let b = char_pos_at_byte(text, e)->0;
    assert(crate::text::is_char_pos_at_byte(text, s, a));
    assert(crate::text::is_char_pos_at_byte(text, e, b));
    if b < a {
        crate::text::lemma_utf8_len_take_mono(text, b, a);
    }
}

/// The snippet around the byte range `m` reported for `text`.
pub fn snippet_for_range(text: &str, m: Option<(usize, usize)>) -> (r: Option<String>)
    requires
        text@.len() + match_context() <= usize::MAX,
        m matches Some((s, e)) ==> s <= e && char_pos_at_byte(text@, s as int) is Some
            && char_pos_at_byte(text@, e as int) is Some,
    ensures
        r matches Some(x) ==> range_snippet_spec(text@, m) == Some(x@),
        r is None <==> m is None,
{
    match m {
        None => None,
        Some((s, e)) => {
            let chars = chars_of(text);
            let cs = char_count_before_byte(&chars, s as u128);
            let ce = char_count_before_byte(&chars, e as u128);
            match (cs, ce) {
                (Some(a), Some(b)) => {
                    proof {
                        lemma_char_pos_mono(text@, s as int, e as int);
                    }
                    let w = window_chars(&chars, a, b, 40);
                    Some(string_from_chars(w))
                },
                _ => None,
            }
        },
    }
}

/// The snippet for the literal pattern `q`, or `None` (outer) where it has no answer.
fn literal_snippet(text: &str, q: &str) -> (r: Option<Option<String>>)
    ensures
        r is Some <==> literal_snippet_defined(text@, q@),
        r matches Some(x) ==> (x matches Some(y) ==> literal_snippet_spec(text@, q@) == Some(y@))
            && (x is None ==> literal_snippet_spec(text@, q@) is None),
{
    let chars = chars_of(text);
    let tl = lowercase_chars(text);
    let qc = chars_of(q);
    match find_chars(&tl, &qc) {
        None => Some(None),
        Some(k) => {
            let b = utf8_len_of_prefix(&tl, k);
            match char_count_before_byte(&chars, b) {
                None => None,
                Some(j) => {
                    if j > usize::MAX - qc.len() || j + qc.len() > usize::MAX - 40 {
                        return None;
                    }
                    let w = window_chars(&chars, j, j + qc.len(), 40);
                    Some(Some(string_from_chars(w)))
                },
            }
        },
    }
}

impl Matcher {
    /// Prepares `pattern`: lower-cased for a literal search, compiled for a
    /// regular expression.
    pub fn build(pattern: &str, use_regex: bool) -> (r: Result<Matcher, SearchError>)
        ensures
            !use_regex ==> (r matches Ok(Matcher::Literal(q)) && q@ == lowercase(pattern@)),
            use_regex ==> (r is Ok <==> regex_compiles(pattern@)),
            use_regex ==> (r matches Ok(Matcher::Regex(c)) ==> c.source() == pattern@),
            use_regex ==> (r matches Ok(m) ==> m is Regex),
            r matches Err(e) ==> e is InvalidRegex,
    {
        if use_regex {
            match compile_regex(pattern) {
                Ok(re) => Ok(Matcher::Regex(re)),
                Err(e) => Err(SearchError::InvalidRegex(regex_error_message(&e))),
            }
        } else {
            Ok(Matcher::Literal(to_lowercase(pattern)))
        }
    }

    /// When `find_snippet` has an answer for `text`.
    pub open spec fn snippet_defined_for(&self, text: Seq<char>) -> bool {
        match self {
            Matcher::Literal(q) => literal_snippet_defined(text, q@),
            Matcher::Regex(_) => text.len() + match_context() <= usize::MAX,
        }
    }

    /// The snippet around the first match in `text`, or `None` without a match.
    pub fn find_snippet(&self, text: &str) -> (r: Option<String>)
        requires
            self.snippet_defined_for(text@),
        ensures
            self matches Matcher::Literal(q) ==> (r matches Some(y) ==> literal_snippet_spec(
                text@,
                q@,
            ) == Some(y@)) && (r is None ==> literal_snippet_spec(text@, q@) is None),
            self matches Matcher::Regex(c) ==> (r matches Some(y) ==> regex_snippet_spec(
                text@,
                c.source(),
            ) == Some(y@)) && (r is None ==> regex_snippet_spec(text@, c.source()) is None),
    {
        match self.checked_find_snippet(text) {
            Some(x) => x,
            None => None,
        }
    }

    /// Like `find_snippet`, with `None` (outer) where that has no answer.
    pub fn checked_find_snippet(&self, text: &str) -> (r: Option<Option<String>>)
        ensures
            r is Some <==> self.snippet_defined_for(text@),
            self matches Matcher::Literal(q) ==> (r matches Some(Some(y)) ==> literal_snippet_spec(
                text@,
                q@,
            ) == Some(y@)) && (r matches Some(None) ==> literal_snippet_spec(text@, q@) is None),
            self matches Matcher::Regex(c) ==> (r matches Some(Some(y)) ==> regex_snippet_spec(
                text@,
                c.source(),
            ) == Some(y@)) && (r matches Some(None) ==> regex_snippet_spec(text@, c.source()) is None),
    {
        match self {
            Matcher::Literal(q) => literal_snippet(text, q.as_str()),
            Matcher::Regex(re) => {
                let chars = chars_of(text);
                if chars.len() > usize::MAX - 40 {
                    return None;
                }
                let m = regex_find(re, text);
                Some(snippet_for_range(text, m))
            },
        }
    }
}

/// A search hit: the label shown (short name, or `name:vN` for an archived
/// version), the item type and the snippet.
pub type Hit = (String, String, String);

/// The characters of each part of each hit.
pub open spec fn hits_view(v: Seq<Hit>) -> Seq<(Seq<char>, Seq<char>, Seq<char>)> {
    v.map_values(|h: Hit| (h.0@, h.1@, h.2@))
}

/// Whether `item` passes the type filter.
pub open spec fn type_ok(item: Item, ty: Option<Seq<char>>) -> bool {
    match ty {
        Some(t) => item.item_type@ == t,
        None => true,
    }
}

/// Whether some tag equals the tag filter, ignoring case.
pub open spec fn tag_ok(tags: Seq<Tag>, tf: Option<Seq<char>>) -> bool {
    match tf {
        Some(f) => exists|i: int| 0 <= i < tags.len() && lowercase(tags[i].tag@) == lowercase(f),
        None => true,
    }
}

/// Whether `text` contains `q`, ignoring case.
pub open spec fn contains_ci(text: Seq<char>, q: Seq<char>) -> bool {
    find_first(lowercase(text), lowercase(q)) is Some
}

/// Whether the item's content or title contains the query, ignoring case.
pub open spec fn find_query_ok(item: Item, q: Option<Seq<char>>) -> bool {
    match q {
        Some(q) => contains_ci(item.content@, q) || (match item.title {
            Some(t) => contains_ci(t@, q),
            None => false,
        }),
        None => true,
    }
}

/// Whether `find` lists the entry.
pub open spec fn find_keeps(
    e: StoredItem,
    q: Option<Seq<char>>,
    tf: Option<Seq<char>>,
    ty: Option<Seq<char>>,
) -> bool {
    type_ok(e.item, ty) && find_query_ok(e.item, q) && tag_ok(e.tags@, tf)
}

/// The hit `find` shows for a listed entry.
pub open spec fn find_hit(e: StoredItem, q: Option<Seq<char>>) -> (Seq<char>, Seq<char>, Seq<char>) {
    (
        e.item.shortname@,
        e.item.item_type@,
        match q {
            Some(q) => snippet_spec(e.item.content@, q, 40),
            None => preview_of(e.item.content@, 80),
        },
    )
}

/// The hits of `find`, in the order of the entries.
pub open spec fn find_hits_spec(
    es: Seq<StoredItem>,
    q: Option<Seq<char>>,
    tf: Option<Seq<char>>,
    ty: Option<Seq<char>>,
) -> Seq<(Seq<char>, Seq<char>, Seq<char>)>
    decreases es.len(),
{
    if es.len() == 0 {
        Seq::empty()
    } else {
        let prev = find_hits_spec(es.drop_last(), q, tf, ty);
        if find_keeps(es.last(), q, tf, ty) {
            prev.push(find_hit(es.last(), q))
        } else {
            prev
        }
    }
}

/// Whether every snippet `find` cuts has an answer.
pub open spec fn find_defined(
    es: Seq<StoredItem>,
    q: Option<Seq<char>>,
    tf: Option<Seq<char>>,
    ty: Option<Seq<char>>,
) -> bool
    decreases es.len(),
{
    if es.len() == 0 {
        true
    } else {
        find_defined(es.drop_last(), q, tf, ty) && (find_keeps(es.last(), q, tf, ty) ==> match q {
            Some(q) => snippet_defined(es.last().item.content@, q, 40),
            None => true,
        })
    }
}

proof fn lemma_find_defined_prefix(
    es: Seq<StoredItem>,
    q: Option<Seq<char>>,
    tf: Option<Seq<char>>,
    ty: Option<Seq<char>>,
    j: int,
)
    requires
        0 <= j <= es.len(),
        find_defined(es, q, tf, ty),
    ensures
        find_defined(es.take(j), q, tf, ty),
    decreases es.len(),
{
    if j == es.len() {
        assert(es.take(j) =~= es);
    } else {
        lemma_find_defined_prefix(es.drop_last(), q, tf, ty, j);
        assert(es.drop_last().take(j) =~= es.take(j));
    }
}

proof fn lemma_find_hits_include(
    es: Seq<StoredItem>,
    q: Option<Seq<char>>,
    tf: Option<Seq<char>>,
    ty: Option<Seq<char>>,
    k: int,
)
    requires
        0 <= k < es.len(),
        find_keeps(es[k], q, tf, ty),
    ensures
        find_hits_spec(es, q, tf, ty).contains(find_hit(es[k], q)),
    decreases es.len(),
{
    let prev = find_hits_spec(es.drop_last(), q, tf, ty);
    if k == es.len() - 1 {
        assert(find_hits_spec(es, q, tf, ty) == prev.push(find_hit(es[k], q)));
        assert(find_hits_spec(es, q, tf, ty)[prev.len() as int] == find_hit(es[k], q));
    } else {
        assert(es.drop_last()[k] == es[k]);
        lemma_find_hits_include(es.drop_last(), q, tf, ty, k);
        let j = choose|j: int| 0 <= j < prev.len() && prev[j] == find_hit(es[k], q);
        if find_keeps(es.last(), q, tf, ty) {
            assert(find_hits_spec(es, q, tf, ty)[j] == prev[j]);
        }
    }
}

proof fn lemma_find_hits_from_kept(
    es: Seq<StoredItem>,
    q: Option<Seq<char>>,
    tf: Option<Seq<char>>,
    ty: Option<Seq<char>>,
    j: int,
)
    requires
        0 <= j < find_hits_spec(es, q, tf, ty).len(),
    ensures
        exists|k: int|
            0 <= k < es.len() && find_keeps(es[k], q, tf, ty) && find_hits_spec(es, q, tf, ty)[j]
                == find_hit(#[trigger] es[k], q),
    decreases es.len(),
{
    let init = es.drop_last();
    let prev = find_hits_spec(init, q, tf, ty);
    if j < prev.len() {
        lemma_find_hits_from_kept(init, q, tf, ty, j);
        let k = choose|k: int|
            0 <= k < init.len() && find_keeps(init[k], q, tf, ty) && prev[j] == find_hit(
                #[trigger] init[k],
                q,
            );
        assert(es[k] == init[k]);
        if find_keeps(es.last(), q, tf, ty) {
            assert(find_hits_spec(es, q, tf, ty)[j] == prev[j]);
        }
    } else {
        assert(es[es.len() - 1] == es.last());
    }
}

/// `find` with a term lists every entry that passes the tag and type
/// filters and whose content or title contains the term, ignoring case: a
/// hit with its name, its type and a snippet of its content around the term.
pub proof fn find_lists_content_or_title_matches(
    es: Seq<StoredItem>,
    q: Seq<char>,
    tf: Option<Seq<char>>,
    ty: Option<Seq<char>>,
    k: int,
)
    requires
        0 <= k < es.len(),
        type_ok(es[k].item, ty),
        tag_ok(es[k].tags@, tf),
        contains_ci(es[k].item.content@, q) || (es[k].item.title matches Some(t) && contains_ci(t@, q)),
    ensures
        exists|j: int|
            #![trigger find_hits_spec(es, Some(q), tf, ty)[j]]
            0 <= j < find_hits_spec(es, Some(q), tf, ty).len() && find_hits_spec(es, Some(q), tf, ty)[j]
                == (es[k].item.shortname@, es[k].item.item_type@, snippet_spec(
                es[k].item.content@,
                q,
                40,
            )),
{
    lemma_find_hits_include(es, Some(q), tf, ty, k);
    let hs = find_hits_spec(es, Some(q), tf, ty);
    let j = choose|j: int| 0 <= j < hs.len() && hs[j] == find_hit(es[k], Some(q));
    assert(hs[j] == find_hit(es[k], Some(q)));
}

/// Every hit of `find` with a term is an entry's name and type, for an entry
/// that passes the tag and type filters and whose content or title contains
/// the term, ignoring case.
pub proof fn find_hits_only_matches(
    es: Seq<StoredItem>,
    q: Seq<char>,
    tf: Option<Seq<char>>,
    ty: Option<Seq<char>>,
    j: int,
)
    requires
        0 <= j < find_hits_spec(es, Some(q), tf, ty).len(),
    ensures
        exists|k: int|
            #![trigger es[k]]
            0 <= k < es.len() && type_ok(es[k].item, ty) && tag_ok(es[k].tags@, tf) && (contains_ci(
                es[k].item.content@,
                q,
            ) || (es[k].item.title matches Some(t) && contains_ci(t@, q))) && find_hits_spec(
                es,
                Some(q),
                tf,
                ty,
            )[j].0 == es[k].item.shortname@ && find_hits_spec(es, Some(q), tf, ty)[j].1
                == es[k].item.item_type@,
{
    lemma_find_hits_from_kept(es, Some(q), tf, ty, j);
}

/// Whether `text` contains the lower-cased query `ql`, ignoring case.
fn contains_lower(text: &str, ql: &Vec<char>) -> (r: bool)
    ensures
        r == (find_first(lowercase(text@), ql@) is Some),
{
    let tl = lowercase_chars(text);
    find_chars(&tl, ql).is_some()
}

/// Whether some tag, lower-cased, equals `fl`.
fn some_tag_matches(tags: &Vec<Tag>, fl: &Vec<char>) -> (r: bool)
    ensures
        r == exists|i: int| 0 <= i < tags@.len() && lowercase(tags@[i].tag@) == fl@,
{
    let mut i: usize = 0;
    while i < tags.len()
        invariant
            i <= tags@.len(),
            forall|k: int| 0 <= k < i ==> lowercase(#[trigger] tags@[k].tag@) != fl@,
        decreases tags@.len() - i,
    {
        let t = lowercase_chars(tags[i].tag.as_str());
        if chars_eq(&t, fl) {
            return true;
        }
        i = i + 1;
    }
    false
}

/// Whether the entry passes the type and tag filters.
fn passes_filters(e: &StoredItem, tfl: &Option<Vec<char>>, ty: Option<&str>) -> (r: bool)
    ensures
        r == (type_ok(e.item, opt_chars(ty)) && match tfl {
            Some(f) => exists|i: int| 0 <= i < e.tags@.len() && lowercase(e.tags@[i].tag@) == f@,
            None => true,
        }),
{
    match ty {
        Some(t) => {
            if !str_eq(e.item.item_type.as_str(), t) {
                return false;
            }
        },
        None => {},
    }
    match tfl {
        Some(f) => some_tag_matches(&e.tags, f),
        None => true,
    }
}

/// The lower-cased characters of an optional string.
fn lower_opt(o: Option<&str>) -> (r: Option<Vec<char>>)
    ensures
        r is Some <==> o is Some,
        r matches Some(v) ==> v@ == lowercase(o->0@),
{
    match o {
        Some(s) => Some(lowercase_chars(s)),
        None => None,
    }
}

/// The hits of `find` over `entries` (listed in short-name order): entries
/// of the given type, whose content or title contains `query` and that carry
/// the tag, ignoring case. `None` where a snippet has no answer.
pub fn find_hits(
    entries: &Vec<StoredItem>,
    query: Option<&str>,
    tag_filter: Option<&str>,
    type_filter: Option<&str>,
) -> (r: Option<Vec<Hit>>)
    ensures
        r is Some <==> find_defined(entries@, opt_chars(query), opt_chars(tag_filter), opt_chars(type_filter)),
        r matches Some(v) ==> hits_view(v@) == find_hits_spec(
            entries@,
            opt_chars(query),
            opt_chars(tag_filter),
            opt_chars(type_filter),
        ),
{
    let ghost q = opt_chars(query);
    let ghost tf = opt_chars(tag_filter);
    let ghost ty = opt_chars(type_filter);
    let ql = lower_opt(query);
    let tfl = lower_opt(tag_filter);
    let mut out: Vec<Hit> = Vec::new();
    let mut i: usize = 0;
    assert(entries@.take(0) =~= Seq::<StoredItem>::empty());
    while i < entries.len()
        invariant
            i <= entries@.len(),
            q == opt_chars(query),
            tf == opt_chars(tag_filter),
            ty == opt_chars(type_filter),
            ql is Some <==> query is Some,
            ql matches Some(v) ==> v@ == lowercase(query->0@),
            tfl is Some <==> tag_filter is Some,
            tfl matches Some(v) ==> v@ == lowercase(tag_filter->0@),
            find_defined(entries@.take(i as int), q, tf, ty),
            hits_view(out@) == find_hits_spec(entries@.take(i as int), q, tf, ty),
        decreases entries@.len() - i,
    {
        let e = &entries[i];
        let ghost pre = entries@.take(i as int);
        let ghost cur = entries@.take(i as int + 1);
        assert(cur.drop_last() =~= pre);
        assert(cur.last() == *e);
        let mut keep = passes_filters(e, &tfl, type_filter);
        if keep {
            match &ql {
                Some(qv) => {
                    let c = contains_lower(e.item.content.as_str(), qv);
                    let t = match &e.item.title {
                        Some(tt) => contains_lower(tt.as_str(), qv),
                        None => false,
                    };
                    keep = c || t;
                },
                None => {},
            }
        }
        assert(keep == find_keeps(*e, q, tf, ty));
        if keep {
            let snip = match query {
                Some(qs) => match checked_snippet(e.item.content.as_str(), qs, 40) {
                    Some(x) => x,
                    None => {
                        proof {
                            assert(!find_defined(cur, q, tf, ty));
                            if find_defined(entries@, q, tf, ty) {
                                lemma_find_defined_prefix(entries@, q, tf, ty, i as int + 1);
                            }
                        }
                        return None;
                    },
                },
                None => preview(e.item.content.as_str(), 80),
            };
            let ghost old_out = out@;
            out.push((e.item.shortname.clone(), e.item.item_type.clone(), snip));
            assert(hits_view(out@) =~= hits_view(old_out).push(find_hit(*e, q)));
        }
        i = i + 1;
    }
    assert(entries@.take(entries@.len() as int) =~= entries@);
    Some(out)
}

/// What an optional matcher looks for, as a value of the specification.
pub enum MatcherView {
    /// No pattern: everything matches.
    All,
    /// A literal, lower-cased pattern.
    Literal(Seq<char>),
    /// A regular expression, by its pattern.
    Regex(Seq<char>),
}

/// What an optional matcher looks for.
pub open spec fn matcher_view(m: Option<Matcher>) -> MatcherView {
    match m {
        None => MatcherView::All,
        Some(Matcher::Literal(q)) => MatcherView::Literal(q@),
        Some(Matcher::Regex(c)) => MatcherView::Regex(c.source()),
    }
}

/// The snippet a pattern cuts from `text` where it matches; without a
/// pattern, a preview of `text`.
pub open spec fn matcher_snippet_spec(mv: MatcherView, text: Seq<char>) -> Option<Seq<char>> {
    match mv {
        MatcherView::All => Some(preview_of(text, 80)),
        MatcherView::Literal(q) => literal_snippet_spec(text, q),
        MatcherView::Regex(p) => regex_snippet_spec(text, p),
    }
}

/// When the snippet of a pattern in `text` has an answer.
pub open spec fn matcher_defined(mv: MatcherView, text: Seq<char>) -> bool {
    match mv {
        MatcherView::All => true,
        MatcherView::Literal(q) => literal_snippet_defined(text, q),
        MatcherView::Regex(_) => text.len() + match_context() <= usize::MAX,
    }
}

/// The label of an archived version: `name:vN`.
pub open spec fn version_label(name: Seq<char>, version: i64) -> Seq<char> {
    name + seq![':', 'v'] + signed_decimal(version as int)
}

/// The snippet shown for the item itself: a match in its content, else (when
/// the title matches) a preview of the content; without a pattern, a preview.
pub open spec fn search_main(e: StoredItem, mv: MatcherView) -> Option<Seq<char>> {
    match mv {
        MatcherView::All => Some(preview_of(e.item.content@, 80)),
        _ => match matcher_snippet_spec(mv, e.item.content@) {
            Some(s) => Some(s),
            None => match e.item.title {
                Some(t) => match matcher_snippet_spec(mv, t@) {
                    Some(_) => Some(preview_of(e.item.content@, 80)),
                    None => None,
                },
                None => None,
            },
        },
    }
}

/// The hits among archived versions `hs` of an item.
pub open spec fn history_hits_spec(
    name: Seq<char>,
    ty: Seq<char>,
    hs: Seq<HistoryEntry>,
    mv: MatcherView,
) -> Seq<(Seq<char>, Seq<char>, Seq<char>)>
    decreases hs.len(),
{
    if hs.len() == 0 {
        Seq::empty()
    } else {
        let prev = history_hits_spec(name, ty, hs.drop_last(), mv);
        let h = hs.last();
        let label = version_label(name, h.version);
        match matcher_snippet_spec(mv, h.content@) {
            Some(s) => prev.push((label, ty, s)),
            None => prev,
        }
    }
}

/// Whether every snippet cut among `hs` has an answer.
pub open spec fn history_defined(hs: Seq<HistoryEntry>, mv: MatcherView) -> bool {
    forall|k: int| 0 <= k < hs.len() ==> matcher_defined(mv, #[trigger] hs[k].content@)
}

/// The hits for one entry that passed the filters: the item's own hit
/// where it matches, then, with `include_history`, one for each matching
/// archived version (whether or not the item itself matches).
pub open spec fn entry_hits_spec(
    e: StoredItem,
    mv: MatcherView,
    include_history: bool,
) -> Seq<(Seq<char>, Seq<char>, Seq<char>)> {
    (match search_main(e, mv) {
        None => Seq::empty(),
        Some(s) => seq![(e.item.shortname@, e.item.item_type@, s)],
    }) + (if include_history {
        history_hits_spec(e.item.shortname@, e.item.item_type@, e.history@, mv)
    } else {
        Seq::empty()
    })
}

/// Whether every snippet cut for one entry has an answer.
pub open spec fn entry_defined(e: StoredItem, mv: MatcherView, include_history: bool) -> bool {
    match mv {
        MatcherView::All => true,
        _ => {
            &&& matcher_defined(mv, e.item.content@)
            &&& (e.item.title matches Some(t) ==> matcher_defined(mv, t@))
            &&& (include_history ==> history_defined(e.history@, mv))
        },
    }
}

/// Whether `search` keeps the entry: the right type and, where tags are
/// given, one of them (any will do, ignoring case).
pub open spec fn search_keeps(e: StoredItem, tfs: Seq<Seq<char>>, ty: Option<Seq<char>>) -> bool {
    type_ok(e.item, ty) && (tfs.len() == 0 || tags_match_any(e.tags@, tfs))
}

/// The hits of `search`, in the order of the entries.
pub open spec fn search_hits_spec(
    es: Seq<StoredItem>,
    mv: MatcherView,
    include_history: bool,
    tfs: Seq<Seq<char>>,
    ty: Option<Seq<char>>,
) -> Seq<(Seq<char>, Seq<char>, Seq<char>)>
    decreases es.len(),
{
    if es.len() == 0 {
        Seq::empty()
    } else {
        let prev = search_hits_spec(es.drop_last(), mv, include_history, tfs, ty);
        if search_keeps(es.last(), tfs, ty) {
            prev + entry_hits_spec(es.last(), mv, include_history)
        } else {
            prev
        }
    }
}

/// Whether every snippet `search` cuts has an answer.
pub open spec fn search_defined(
    es: Seq<StoredItem>,
    mv: MatcherView,
    include_history: bool,
    tfs: Seq<Seq<char>>,
    ty: Option<Seq<char>>,
) -> bool
    decreases es.len(),
{
    if es.len() == 0 {
        true
    } else {
        search_defined(es.drop_last(), mv, include_history, tfs, ty) && (search_keeps(
            es.last(),
            tfs,
            ty,
        ) ==> entry_defined(es.last(), mv, include_history))
    }
}

proof fn lemma_search_defined_prefix(
    es: Seq<StoredItem>,
    mv: MatcherView,
    ih: bool,
    tf: Seq<Seq<char>>,
    ty: Option<Seq<char>>,
    j: int,
)
    requires
        0 <= j <= es.len(),
        search_defined(es, mv, ih, tf, ty),
    ensures
        search_defined(es.take(j), mv, ih, tf, ty),
    decreases es.len(),
{
    if j == es.len() {
        assert(es.take(j) =~= es);
    } else {
        assert(es.drop_last().take(j) =~= es.take(j));
        lemma_search_defined_prefix(es.drop_last(), mv, ih, tf, ty, j);
    }
}

/// The label `name:vN` of an archived version.
fn version_label_string(name: &str, version: i64) -> (r: String)
    ensures
        r@ == version_label(name@, version),
{
    let mut v = chars_of(name);
    v.push(':');
    v.push('v');
    let d = signed_decimal_chars(version);
    append_chars(&mut v, &d);
    string_from_chars(v)
}

/// The snippet of a matcher for `text`, where it has an answer (`None`
/// outer where it has none).
fn matcher_snippet(m: &Option<Matcher>, text: &str) -> (r: Option<Option<String>>)
    ensures
        r is Some <==> matcher_defined(matcher_view(*m), text@),
        r matches Some(Some(y)) ==> matcher_snippet_spec(matcher_view(*m), text@) == Some(y@),
        r matches Some(None) ==> matcher_snippet_spec(matcher_view(*m), text@) is None,
{
    match m {
        Some(mm) => mm.checked_find_snippet(text),
        None => Some(Some(preview(text, 80))),
    }
}

/// The hits among the archived versions of one item.
fn history_hits(
    name: &str,
    ty: &str,
    hs: &Vec<HistoryEntry>,
    m: &Option<Matcher>,
) -> (r: Option<Vec<Hit>>)
    ensures
        r is Some <==> history_defined(hs@, matcher_view(*m)),
        r matches Some(v) ==> hits_view(v@) == history_hits_spec(name@, ty@, hs@, matcher_view(*m)),
{
    let ghost mv = matcher_view(*m);
    let mut out: Vec<Hit> = Vec::new();
    let mut i: usize = 0;
    assert(hs@.take(0) =~= Seq::<HistoryEntry>::empty());
    while i < hs.len()
        invariant
            i <= hs@.len(),
            mv == matcher_view(*m),
            forall|k: int| 0 <= k < i ==> matcher_defined(mv, #[trigger] hs@[k].content@),
            hits_view(out@) == history_hits_spec(name@, ty@, hs@.take(i as int), mv),
        decreases hs@.len() - i,
    {
        let h = &hs[i];
        let ghost pre = hs@.take(i as int);
        let ghost cur = hs@.take(i as int + 1);
        assert(cur.drop_last() =~= pre);
        assert(cur.last() == *h);
        let ghost old_out = out@;
        match matcher_snippet(m, h.content.as_str()) {
            None => {
                assert(!matcher_defined(mv, hs@[i as int].content@));
                return None;
            },
            Some(None) => {},
            Some(Some(snip)) => {
                let label = version_label_string(name, h.version);
                out.push((label, ty.to_owned(), snip));
                assert(hits_view(out@) =~= hits_view(old_out).push(
                    (version_label(name@, h.version), ty@, out@.last().2@),
                ));
            },
        }
        i = i + 1;
    }
    assert(hs@.take(hs@.len() as int) =~= hs@);
    Some(out)
}

/// The hits for one entry that passed the filters.
fn entry_hits(e: &StoredItem, m: &Option<Matcher>, include_history: bool) -> (r: Option<Vec<Hit>>)
    ensures
        r is Some <==> entry_defined(*e, matcher_view(*m), include_history),
        r matches Some(v) ==> hits_view(v@) == entry_hits_spec(*e, matcher_view(*m), include_history),
{
    let ghost mv = matcher_view(*m);
    let content = e.item.content.as_str();
    let main: Option<String> = match m {
        None => Some(preview(content, 80)),
        Some(_) => {
            let cs = matcher_snippet(m, content);
            let ts: Option<Option<String>> = match &e.item.title {
                Some(t) => match matcher_snippet(m, t.as_str()) {
                    None => None,
                    Some(Some(_)) => Some(Some(preview(content, 80))),
                    Some(None) => Some(None),
                },
                None => Some(None),
            };
            match (cs, ts) {
                (Some(c), Some(t)) => match c {
                    Some(x) => Some(x),
                    None => t,
                },
                _ => {
                    return None;
                },
            }
        },
    };
    let mut out: Vec<Hit> = Vec::new();
    match main {
        None => {},
        Some(s) => {
            out.push((e.item.shortname.clone(), e.item.item_type.clone(), s));
        },
    }
    let ghost first = out@;
    assert(hits_view(first) =~= match search_main(*e, mv) {
        None => Seq::empty(),
        Some(s) => seq![(e.item.shortname@, e.item.item_type@, s)],
    });
    if include_history {
        match history_hits(e.item.shortname.as_str(), e.item.item_type.as_str(), &e.history, m) {
            None => {
                return None;
            },
            Some(mut hh) => {
                let ghost hv = hh@;
                out.append(&mut hh);
                assert(hits_view(out@) =~= hits_view(first) + hits_view(hv));
            },
        }
    } else {
        assert(hits_view(out@) =~= hits_view(first) + Seq::empty());
    }
    Some(out)
}

proof fn lemma_search_hits_include(
    es: Seq<StoredItem>,
    mv: MatcherView,
    include_history: bool,
    tfs: Seq<Seq<char>>,
    ty: Option<Seq<char>>,
    k: int,
    i: int,
)
    requires
        0 <= k < es.len(),
        search_keeps(es[k], tfs, ty),
        0 <= i < entry_hits_spec(es[k], mv, include_history).len(),
    ensures
        search_hits_spec(es, mv, include_history, tfs, ty).contains(
            entry_hits_spec(es[k], mv, include_history)[i],
        ),
    decreases es.len(),
{
    let hs = search_hits_spec(es, mv, include_history, tfs, ty);
    let prev = search_hits_spec(es.drop_last(), mv, include_history, tfs, ty);
    let eh = entry_hits_spec(es[k], mv, include_history);
    if k == es.len() - 1 {
        assert(hs == prev + eh);
        assert(hs[prev.len() + i] == eh[i]);
    } else {
        assert(es.drop_last()[k] == es[k]);
        lemma_search_hits_include(es.drop_last(), mv, include_history, tfs, ty, k, i);
        let j = choose|j: int| 0 <= j < prev.len() && prev[j] == eh[i];
        if search_keeps(es.last(), tfs, ty) {
            assert(hs[j] == prev[j]);
        }
    }
}

proof fn lemma_history_hits_include(
    name: Seq<char>,
    ty: Seq<char>,
    hs: Seq<HistoryEntry>,
    mv: MatcherView,
    h: int,
    s: Seq<char>,
)
    requires
        0 <= h < hs.len(),
        matcher_snippet_spec(mv, hs[h].content@) == Some(s),
    ensures
        history_hits_spec(name, ty, hs, mv).contains((version_label(name, hs[h].version), ty, s)),
    decreases hs.len(),
{
    let r = history_hits_spec(name, ty, hs, mv);
    let prev = history_hits_spec(name, ty, hs.drop_last(), mv);
    let x = (version_label(name, hs[h].version), ty, s);
    if h == hs.len() - 1 {
        assert(r == prev.push(x));
        assert(r[prev.len() as int] == x);
    } else {
        assert(hs.drop_last()[h] == hs[h]);
        lemma_history_hits_include(name, ty, hs.drop_last(), mv, h, s);
        let j = choose|j: int| 0 <= j < prev.len() && prev[j] == x;
        if matcher_snippet_spec(mv, hs.last().content@) is Some {
            assert(r[j] == prev[j]);
        }
    }
}

proof fn lemma_history_hits_shape(name: Seq<char>, ty: Seq<char>, hs: Seq<HistoryEntry>, mv: MatcherView, j: int)
    requires
        0 <= j < history_hits_spec(name, ty, hs, mv).len(),
    ensures
        history_hits_spec(name, ty, hs, mv)[j].1 == ty,
        history_hits_spec(name, ty, hs, mv)[j].0.len() >= name.len(),
        history_hits_spec(name, ty, hs, mv)[j].0.take(name.len() as int) == name,
    decreases hs.len(),
{
    let prev = history_hits_spec(name, ty, hs.drop_last(), mv);
    if j < prev.len() {
        lemma_history_hits_shape(name, ty, hs.drop_last(), mv, j);
        assert(history_hits_spec(name, ty, hs, mv)[j] == prev[j]);
    } else {
        let l = version_label(name, hs.last().version);
        assert(l.take(name.len() as int) =~= name);
    }
}

/// Every hit of `search` belongs to an entry that passes the tag and type
/// filters: it carries that entry's type, and its label is the entry's name
/// (or the name followed by an archived version's number). The result gives
/// the entry's index.
pub proof fn search_hit_belongs_to_a_kept_entry(
    es: Seq<StoredItem>,
    mv: MatcherView,
    include_history: bool,
    tfs: Seq<Seq<char>>,
    ty: Option<Seq<char>>,
    j: int,
) -> (k: int)
    requires
        0 <= j < search_hits_spec(es, mv, include_history, tfs, ty).len(),
    ensures
        0 <= k < es.len(),
        type_ok(es[k].item, ty),
        tfs.len() == 0 || tags_match_any(es[k].tags@, tfs),
        search_hits_spec(es, mv, include_history, tfs, ty)[j].1 == es[k].item.item_type@,
        search_hits_spec(es, mv, include_history, tfs, ty)[j].0.len() >= es[k].item.shortname@.len(),
        search_hits_spec(es, mv, include_history, tfs, ty)[j].0.take(es[k].item.shortname@.len() as int)
            == es[k].item.shortname@,
    decreases es.len(),
{
    let init = es.drop_last();
    let prev = search_hits_spec(init, mv, include_history, tfs, ty);
    let hs = search_hits_spec(es, mv, include_history, tfs, ty);
    if j < prev.len() {
        let k = search_hit_belongs_to_a_kept_entry(init, mv, include_history, tfs, ty, j);
        assert(es[k] == init[k]);
        if search_keeps(es.last(), tfs, ty) {
            assert(hs[j] == prev[j]);
        }
        k
    } else {
        let e = es.last();
        let k = es.len() - 1;
        assert(es[k] == e);
        let main = match search_main(e, mv) {
            None => Seq::empty(),
            Some(s) => seq![(e.item.shortname@, e.item.item_type@, s)],
        };
        let hist = if include_history {
            history_hits_spec(e.item.shortname@, e.item.item_type@, e.history@, mv)
        } else {
            Seq::empty()
        };
        assert(hs == prev + (main + hist));
        let i = j - prev.len();
        assert(hs[j] == (main + hist)[i]);
        if i < main.len() {
            assert(main[i].0.take(e.item.shortname@.len() as int) =~= e.item.shortname@);
        } else {
            lemma_history_hits_shape(e.item.shortname@, e.item.item_type@, e.history@, mv, i - main.len());
        }
        k
    }
}

/// `search` with a pattern lists every entry that passes the tag and type
/// filters and whose content or title matches: a match in the content gives
/// its name, type and the snippet around the match; where only the title
/// matches, the snippet is a preview of the content. With
/// `include_history`, each archived version whose content matches gives a
/// hit `name:vN` with its snippet, whether or not the item itself matches.
pub proof fn search_lists_matches(
    es: Seq<StoredItem>,
    mv: MatcherView,
    include_history: bool,
    tfs: Seq<Seq<char>>,
    ty: Option<Seq<char>>,
    k: int,
)
    requires
        0 <= k < es.len(),
        !(mv is All),
        type_ok(es[k].item, ty),
        tfs.len() == 0 || tags_match_any(es[k].tags@, tfs),
    ensures
        matcher_snippet_spec(mv, es[k].item.content@) matches Some(s) ==> search_hits_spec(
            es,
            mv,
            include_history,
            tfs,
            ty,
        ).contains((es[k].item.shortname@, es[k].item.item_type@, s)),
        matcher_snippet_spec(mv, es[k].item.content@) is None ==> (es[k].item.title matches Some(t)
            && matcher_snippet_spec(mv, t@) is Some ==> search_hits_spec(
            es,
            mv,
            include_history,
            tfs,
            ty,
        ).contains((es[k].item.shortname@, es[k].item.item_type@, preview_of(es[k].item.content@, 80)))),
        forall|h: int|
            #![trigger es[k].history@[h]]
            include_history && 0 <= h < es[k].history@.len() && matcher_snippet_spec(
                mv,
                es[k].history@[h].content@,
            ) is Some ==> search_hits_spec(es, mv, include_history, tfs, ty).contains(
                (
                    es[k].item.shortname@ + seq![':', 'v'] + signed_decimal(es[k].history@[h].version as int),
                    es[k].item.item_type@,
                    matcher_snippet_spec(mv, es[k].history@[h].content@)->0,
                ),
            ),
{
    let e = es[k];
    let main = match search_main(e, mv) {
        None => Seq::empty(),
        Some(s) => seq![(e.item.shortname@, e.item.item_type@, s)],
    };
    let hist = if include_history {
        history_hits_spec(e.item.shortname@, e.item.item_type@, e.history@, mv)
    } else {
        Seq::empty()
    };
    assert(entry_hits_spec(e, mv, include_history) == main + hist);
    if search_main(e, mv) is Some {
        assert(entry_hits_spec(e, mv, include_history)[0] == main[0]);
        lemma_search_hits_include(es, mv, include_history, tfs, ty, k, 0);
    }
    assert forall|h: int|
        #![trigger es[k].history@[h]]
        include_history && 0 <= h < es[k].history@.len() && matcher_snippet_spec(
            mv,
            es[k].history@[h].content@,
        ) is Some implies search_hits_spec(es, mv, include_history, tfs, ty).contains(
        (
            es[k].item.shortname@ + seq![':', 'v'] + signed_decimal(es[k].history@[h].version as int),
            es[k].item.item_type@,
            matcher_snippet_spec(mv, es[k].history@[h].content@)->0,
        ),
    ) by {
        let s = matcher_snippet_spec(mv, e.history@[h].content@)->0;
        lemma_history_hits_include(e.item.shortname@, e.item.item_type@, e.history@, mv, h, s);
        let x = (version_label(e.item.shortname@, e.history@[h].version), e.item.item_type@, s);
        let j = choose|j: int| 0 <= j < hist.len() && hist[j] == x;
        assert(entry_hits_spec(e, mv, include_history)[main.len() + j] == x);
        lemma_search_hits_include(es, mv, include_history, tfs, ty, k, main.len() + j);
    }
}

/// The hits of `search` over `entries` (listed in short-name order): for each
/// entry of the given type carrying one of the tags (ignoring case; any entry
/// where no tag is given), a hit for the item when its content or title
/// matches (always, without a pattern), and then, with `include_history`,
/// one for each matching archived version. `None` where a snippet has no
/// answer.
pub fn search_hits(
    entries: &Vec<StoredItem>,
    matcher: &Option<Matcher>,
    include_history: bool,
    tag_filters: &Vec<String>,
    type_filter: Option<&str>,
) -> (r: Option<Vec<Hit>>)
    ensures
        r is Some <==> search_defined(
            entries@,
            matcher_view(*matcher),
            include_history,
            strings_view(tag_filters@),
            opt_chars(type_filter),
        ),
        r matches Some(v) ==> hits_view(v@) == search_hits_spec(
            entries@,
            matcher_view(*matcher),
            include_history,
            strings_view(tag_filters@),
            opt_chars(type_filter),
        ),
{
    let ghost mv = matcher_view(*matcher);
    let ghost tf = strings_view(tag_filters@);
    let ghost ty = opt_chars(type_filter);
    let filters_lc = lowercase_all(tag_filters);
    let mut out: Vec<Hit> = Vec::new();
    let mut i: usize = 0;
    assert(entries@.take(0) =~= Seq::<StoredItem>::empty());
    while i < entries.len()
        invariant
            i <= entries@.len(),
            mv == matcher_view(*matcher),
            tf == strings_view(tag_filters@),
            ty == opt_chars(type_filter),
            filters_lc@.len() == tag_filters@.len(),
            forall|i: int| 0 <= i < tag_filters@.len() ==> #[trigger] filters_lc@[i]@ == lowercase(tag_filters@[i]@),
            search_defined(entries@.take(i as int), mv, include_history, tf, ty),
            hits_view(out@) == search_hits_spec(entries@.take(i as int), mv, include_history, tf, ty),
        decreases entries@.len() - i,
    {
        let e = &entries[i];
        let ghost pre = entries@.take(i as int);
        let ghost cur = entries@.take(i as int + 1);
        assert(cur.drop_last() =~= pre);
        assert(cur.last() == *e);
        let ghost old_out = out@;
        let type_matches = match type_filter {
            Some(t) => str_eq(e.item.item_type.as_str(), t),
            None => true,
        };
        let keep = type_matches && (tag_filters.len() == 0 || any_tag_matches(&e.tags, tag_filters, &filters_lc));
        if keep {
            match entry_hits(e, matcher, include_history) {
                None => {
                    proof {
                        if search_defined(entries@, mv, include_history, tf, ty) {
                            lemma_search_defined_prefix(entries@, mv, include_history, tf, ty, i as int + 1);
                        }
                    }
                    return None;
                },
                Some(mut hh) => {
                    let ghost hv = hh@;
                    out.append(&mut hh);
                    assert(hits_view(out@) =~= hits_view(old_out) + hits_view(hv));
                },
            }
        }
        i = i + 1;
    }
    assert(entries@.take(entries@.len() as int) =~= entries@);
    Some(out)
}

/// The widest label of `hs`, in UTF-8 bytes.
pub open spec fn max_label_bytes(hs: Seq<(Seq<char>, Seq<char>, Seq<char>)>) -> nat
    decreases hs.len(),
{
    if hs.len() == 0 {
        0
    } else {
        let m = max_label_bytes(hs.drop_last());
        let l = utf8_len(hs.last().0);
        if l > m {
            l
        } else {
            m
        }
    }
}

/// One result line: label padded to `w`, the type in brackets padded to six,
/// then the snippet.
pub open spec fn hit_line(h: (Seq<char>, Seq<char>, Seq<char>), w: nat) -> Seq<char> {
    pad_right(h.0, w) + seq![' ', ' ', '['] + pad_right(h.1, 6) + seq![']', ' ', ' '] + h.2
}

/// The lines printed for a list of hits.
pub open spec fn render_hits_spec(hs: Seq<(Seq<char>, Seq<char>, Seq<char>)>) -> Seq<Seq<char>> {
    if hs.len() == 0 {
        seq!["No matches."@]
    } else {
        Seq::new(hs.len(), |i: int| hit_line(hs[i], max_label_bytes(hs))) + seq![
            Seq::empty(),
            decimal(hs.len()) + " result(s)."@,
        ]
    }
}

/// The views of a list of strings.
pub open spec fn lines_view(v: Seq<String>) -> Seq<Seq<char>> {
    v.map_values(|l: String| l@)
}

/// The lines printed for the hits of `search` or `find`.
pub fn render_hits(hits: &Vec<Hit>) -> (r: Vec<String>)
    ensures
        lines_view(r@) == render_hits_spec(hits_view(hits@)),
{
    let ghost hv = hits_view(hits@);
    if hits.len() == 0 {
        let mut r: Vec<String> = Vec::new();
        r.push("No matches.".to_owned());
        assert(lines_view(r@) =~= render_hits_spec(hv));
        return r;
    }
    let mut w: u128 = 0;
    let mut i: usize = 0;
    assert(hv.take(0) =~= Seq::<(Seq<char>, Seq<char>, Seq<char>)>::empty());
    while i < hits.len()
        invariant
            i <= hits@.len(),
            hv == hits_view(hits@),
            w == max_label_bytes(hv.take(i as int)),
        decreases hits@.len() - i,
    {
        let l = chars_of(hits[i].0.as_str());
        let b = utf8_len_chars(&l);
        assert(hv.take(i as int + 1).drop_last() =~= hv.take(i as int));
        if b > w {
            w = b;
        }
        i = i + 1;
    }
    assert(hv.take(hits@.len() as int) =~= hv);
    let mut r: Vec<String> = Vec::new();
    let mut j: usize = 0;
    while j < hits.len()
        invariant
            j <= hits@.len(),
            hv == hits_view(hits@),
            w == max_label_bytes(hv),
            hv.len() == hits@.len(),
            lines_view(r@) == Seq::new(j as nat, |k: int| hit_line(hv[k], max_label_bytes(hv))),
        decreases hits@.len() - j,
    {
        let h = &hits[j];
        let mut line: Vec<char> = Vec::new();
        let label = chars_of(h.0.as_str());
        push_padded(&mut line, &label, w);
        line.push(' ');
        line.push(' ');
        line.push('[');
        let ty = chars_of(h.1.as_str());
        push_padded(&mut line, &ty, 6);
        line.push(']');
        line.push(' ');
        line.push(' ');
        let sn = chars_of(h.2.as_str());
        append_chars(&mut line, &sn);
        assert(line@ =~= hit_line(hv[j as int], w as nat));
        let ghost old_r = r@;
        r.push(string_from_chars(line));
        assert(lines_view(r@) =~= lines_view(old_r).push(hit_line(hv[j as int], max_label_bytes(hv))));
        assert(lines_view(r@) =~= Seq::new(j as nat + 1, |k: int| hit_line(hv[k], max_label_bytes(hv))));
        j = j + 1;
    }
    let ghost body = r@;
    r.push(String::new());
    let mut last = decimal_chars(hits.len() as u128);
    let tail = chars_of(" result(s).");
    append_chars(&mut last, &tail);
    r.push(string_from_chars(last));
    assert(lines_view(r@) =~= render_hits_spec(hv));
    r
}

/// Checks the arguments of `search`: something to search by, and a pattern
/// when `--regex` is given.
pub fn check_search_args(
    pattern: Option<&str>,
    use_regex: bool,
    tag_filters: &Vec<String>,
    type_filter: Option<&str>,
) -> (r: Result<(), SearchError>)
    ensures
        (pattern is None && tag_filters@.len() == 0 && type_filter is None) ==> r matches Err(
            SearchError::MissingCriteria,
        ),
        !(pattern is None && tag_filters@.len() == 0 && type_filter is None) && use_regex && pattern is None
            ==> r matches Err(SearchError::RegexNeedsPattern),
        !(pattern is None && tag_filters@.len() == 0 && type_filter is None) && !(use_regex && pattern is None)
            ==> r is Ok,
{
    if pattern.is_none() && tag_filters.len() == 0 && type_filter.is_none() {
        return Err(SearchError::MissingCriteria);
    }
    if use_regex && pattern.is_none() {
        return Err(SearchError::RegexNeedsPattern);
    }
    Ok(())
}

/// The matcher for an optional pattern (none without one).
pub fn search_matcher(pattern: Option<&str>, use_regex: bool) -> (r: Result<Option<Matcher>, SearchError>)
    ensures
        pattern is None ==> r matches Ok(None),
        pattern matches Some(p) ==> (!use_regex ==> (r matches Ok(Some(Matcher::Literal(q))) && q@ == lowercase(p@))),
        pattern matches Some(p) ==> (use_regex ==> (r is Ok <==> regex_compiles(p@))),
        pattern is Some && use_regex ==> (r matches Ok(m) ==> m matches Some(Matcher::Regex(_))),
        pattern matches Some(p) ==> (use_regex ==> (r matches Ok(Some(Matcher::Regex(c))) ==> c.source()
            == p@)),
        r matches Err(e) ==> e is InvalidRegex,
{
    match pattern {
        None => Ok(None),
        Some(p) => match Matcher::build(p, use_regex) {
            Ok(m) => Ok(Some(m)),
            Err(e) => Err(e),
        },
    }
}

/// Checks the arguments of `find`: a term, a tag or a type is required.
pub fn check_find_args(query: Option<&str>, tag_filter: Option<&str>, type_filter: Option<&str>) -> (r: bool)
    ensures
        r == !(query is None && tag_filter is None && type_filter is None),
{
    !(query.is_none() && tag_filter.is_none() && type_filter.is_none())
}

} // verus!
