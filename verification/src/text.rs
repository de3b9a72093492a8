//! Character-level helpers on strings, stated over their `Seq<char>` views.

use vstd::prelude::*;

verus! {

/// The characters of `s`, in order.
pub fn chars_of(s: &str) -> (r: Vec<char>)
    ensures
        r@ == s@,
{
    let mut r: Vec<char> = Vec::new();
    for c in it: s.chars()
        invariant
            it.seq() == s@,
            r@ == s@.take(it.index() as int),
    {
        r.push(c);
    }
    r
}

/// Builds a `String` from its characters (std's `String::from_iter`).
#[verifier::external_body]
pub(crate) fn string_from_chars(v: Vec<char>) -> (r: String)
    ensures
        r@ == v@,
{
    String::from_iter(v)
}

/// Whether two character sequences are equal.
pub fn chars_eq(a: &Vec<char>, b: &Vec<char>) -> (r: bool)
    ensures
        r == (a@ == b@),
{
    if a.len() != b.len() {
        return false;
    }
    let mut i: usize = 0;
    while i < a.len()
        invariant
            a.len() == b.len(),
            i <= a.len(),
            forall|j: int| 0 <= j < i ==> a@[j] == b@[j],
        decreases a.len() - i,
    {
        if a[i] != b[i] {
            return false;
        }
        i = i + 1;
    }
    assert(a@ =~= b@);
    true
}

/// Whether two strings hold the same characters.
pub fn str_eq(a: &str, b: &str) -> (r: bool)
    ensures
        r == (a@ == b@),
{
    let va = chars_of(a);
    let vb = chars_of(b);
    chars_eq(&va, &vb)
}

/// Unicode `White_Space`, the property that `char::is_whitespace` tests.
pub open spec fn is_ws(c: char) -> bool {
    ||| '\t' <= c <= '\r'
    ||| c == ' '
    ||| c == '\u{85}'
    ||| c == '\u{A0}'
    ||| c == '\u{1680}'
    ||| '\u{2000}' <= c <= '\u{200A}'
    ||| c == '\u{2028}'
    ||| c == '\u{2029}'
    ||| c == '\u{202F}'
    ||| c == '\u{205F}'
    ||| c == '\u{3000}'
}

/// Whether `c` is a whitespace character (same answer as `char::is_whitespace`).
pub fn is_whitespace(c: char) -> (r: bool)
    ensures
        r == is_ws(c),
{
    ('\t' <= c && c <= '\r') || c == ' ' || c == '\u{85}' || c == '\u{A0}' || c == '\u{1680}'
        || ('\u{2000}' <= c && c <= '\u{200A}') || c == '\u{2028}' || c == '\u{2029}' || c
        == '\u{202F}' || c == '\u{205F}' || c == '\u{3000}'
}

/// The maximal runs of non-whitespace characters of `s`, in order
/// (what `str::split_whitespace` yields).
pub open spec fn split_ws(s: Seq<char>) -> Seq<Seq<char>>
    decreases s.len(),
{
    if s.len() == 0 {
        Seq::empty()
    } else {
        let init = s.drop_last();
        let words = split_ws(init);
        let c = s.last();
        if is_ws(c) {
            words
        } else if init.len() > 0 && !is_ws(init.last()) {
            words.drop_last().push(words.last().push(c))
        } else {
            words.push(seq![c])
        }
    }
}

/// The words joined by single spaces.
pub open spec fn join_words(ws: Seq<Seq<char>>) -> Seq<char>
    decreases ws.len(),
{
    if ws.len() == 0 {
        Seq::empty()
    } else if ws.len() == 1 {
        ws[0]
    } else {
        join_words(ws.drop_last()) + seq![' '] + ws.last()
    }
}

/// `s` with every run of whitespace collapsed to one space and no whitespace at
/// either end (`split_whitespace` joined by `" "`).
pub open spec fn normalize_ws(s: Seq<char>) -> Seq<char> {
    join_words(split_ws(s))
}

proof fn lemma_split_nonempty(s: Seq<char>)
    requires
        s.len() > 0,
        !is_ws(s.last()),
    ensures
        split_ws(s).len() > 0,
    decreases s.len(),
{
    let init = s.drop_last();
    if init.len() > 0 && !is_ws(init.last()) {
        lemma_split_nonempty(init);
    }
}

proof fn lemma_split_words_nonempty(s: Seq<char>)
    ensures
        forall|k: int| 0 <= k < split_ws(s).len() ==> #[trigger] split_ws(s)[k].len() > 0,
    decreases s.len(),
{
    if s.len() > 0 {
        let init = s.drop_last();
        lemma_split_words_nonempty(init);
        if !is_ws(s.last()) && init.len() > 0 && !is_ws(init.last()) {
            lemma_split_nonempty(init);
        }
    }
}

proof fn lemma_join_empty_iff(ws: Seq<Seq<char>>)
    requires
        forall|k: int| 0 <= k < ws.len() ==> #[trigger] ws[k].len() > 0,
    ensures
        (join_words(ws).len() == 0) <==> (ws.len() == 0),
{
    if ws.len() > 0 {
        assert(ws[ws.len() - 1].len() > 0);
    }
}

proof fn lemma_join_extend(ws: Seq<Seq<char>>, c: char)
    requires
        ws.len() > 0,
    ensures
        join_words(ws.drop_last().push(ws.last().push(c))) == join_words(ws).push(c),
{
    let ws2 = ws.drop_last().push(ws.last().push(c));
    assert(ws2.drop_last() =~= ws.drop_last());
    if ws.len() == 1 {
        assert(join_words(ws2) =~= join_words(ws).push(c));
    } else {
        assert(join_words(ws2) =~= join_words(ws).push(c));
    }
}

proof fn lemma_join_push(ws: Seq<Seq<char>>, w: Seq<char>)
    ensures
        join_words(ws.push(w)) == (if ws.len() == 0 {
            w
        } else {
            join_words(ws) + seq![' '] + w
        }),
{
    assert(ws.push(w).drop_last() =~= ws);
}

/// No whitespace but single spaces between other characters: the only
/// whitespace is `' '`, and no two spaces are adjacent.
pub open spec fn single_spaced(t: Seq<char>) -> bool {
    &&& forall|i: int| 0 <= i < t.len() ==> (#[trigger] t[i] == ' ' || !is_ws(t[i]))
    &&& forall|i: int| 0 <= i < t.len() - 1 ==> !(#[trigger] t[i] == ' ' && t[i + 1] == ' ')
}

proof fn lemma_split_words_no_ws(s: Seq<char>)
    ensures
        forall|k: int, j: int|
            0 <= k < split_ws(s).len() && 0 <= j < split_ws(s)[k].len() ==> !is_ws(
                #[trigger] split_ws(s)[k][j],
            ),
    decreases s.len(),
{
    if s.len() > 0 {
        let init = s.drop_last();
        lemma_split_words_no_ws(init);
        let words = split_ws(init);
        let c = s.last();
        if is_ws(c) {
        } else if init.len() > 0 && !is_ws(init.last()) {
            lemma_split_nonempty(init);
            let w2 = words.drop_last().push(words.last().push(c));
            assert forall|k: int, j: int| 0 <= k < w2.len() && 0 <= j < w2[k].len() implies !is_ws(
                #[trigger] w2[k][j],
            ) by {
                if k < words.len() - 1 {
                    assert(w2[k] == words[k]);
                } else if j < words.last().len() {
                    assert(w2[k][j] == words[words.len() - 1][j]);
                }
            }
        } else {
            let w2 = words.push(seq![c]);
            assert forall|k: int, j: int| 0 <= k < w2.len() && 0 <= j < w2[k].len() implies !is_ws(
                #[trigger] w2[k][j],
            ) by {
                if k < words.len() {
                    assert(w2[k] == words[k]);
                }
            }
        }
    }
}

proof fn lemma_join_single_spaced(ws: Seq<Seq<char>>)
    requires
        forall|k: int| 0 <= k < ws.len() ==> #[trigger] ws[k].len() > 0,
        forall|k: int, j: int| 0 <= k < ws.len() && 0 <= j < ws[k].len() ==> !is_ws(#[trigger] ws[k][j]),
    ensures
        single_spaced(join_words(ws)),
        join_words(ws).len() > 0 ==> join_words(ws)[0] != ' ' && join_words(ws).last() != ' ',
    decreases ws.len(),
{
    if ws.len() == 1 {
        let w = ws[0];
        assert(join_words(ws) == w);
        assert forall|i: int| 0 <= i < w.len() implies (#[trigger] w[i] == ' ' || !is_ws(w[i])) by {
            assert(!is_ws(ws[0][i]));
        }
        assert forall|i: int| 0 <= i < w.len() - 1 implies !(#[trigger] w[i] == ' ' && w[i + 1] == ' ') by {
            assert(!is_ws(ws[0][i]));
        }
        assert(!is_ws(ws[0][0]));
        assert(!is_ws(ws[0][w.len() - 1]));
    } else if ws.len() > 1 {
        let p = ws.drop_last();
        let w = ws.last();
        assert forall|k: int| 0 <= k < p.len() implies #[trigger] p[k].len() > 0 by {
            assert(p[k] == ws[k]);
        }
        assert forall|k: int, j: int| 0 <= k < p.len() && 0 <= j < p[k].len() implies !is_ws(#[trigger] p[k][j]) by {
            assert(p[k] == ws[k]);
        }
        lemma_join_single_spaced(p);
        lemma_join_empty_iff(p);
        let a = join_words(p);
        let t = join_words(ws);
        assert(t == a + seq![' '] + w);
        assert(w.len() > 0) by {
            assert(ws[ws.len() - 1].len() > 0);
        }
        assert forall|j: int| 0 <= j < w.len() implies !is_ws(#[trigger] w[j]) by {
            assert(!is_ws(ws[ws.len() - 1][j]));
        }
        assert forall|i: int| 0 <= i < t.len() implies (#[trigger] t[i] == ' ' || !is_ws(t[i])) by {
            if i < a.len() {
                assert(t[i] == a[i]);
            } else if i > a.len() {
                assert(t[i] == w[i - a.len() - 1]);
            }
        }
        assert forall|i: int| 0 <= i < t.len() - 1 implies !(#[trigger] t[i] == ' ' && t[i + 1] == ' ') by {
            if i < a.len() - 1 {
                assert(t[i] == a[i] && t[i + 1] == a[i + 1]);
            } else if i == a.len() - 1 {
                assert(t[i] == a.last());
            } else if i == a.len() {
                assert(t[i + 1] == w[0]);
            } else {
                assert(t[i] == w[i - a.len() - 1]);
            }
        }
        assert(t[0] == a[0]);
        assert(t.last() == w.last());
        assert(!is_ws(w[w.len() - 1]));
    }
}

/// Normalised text is single-spaced and has no space at either end.
pub proof fn normalized_is_single_spaced(s: Seq<char>)
    ensures
        single_spaced(normalize_ws(s)),
        normalize_ws(s).len() > 0 ==> normalize_ws(s)[0] != ' ' && normalize_ws(s).last() != ' ',
{
    lemma_split_words_nonempty(s);
    lemma_split_words_no_ws(s);
    lemma_join_single_spaced(split_ws(s));
}

/// A preview is one line: single-spaced, with no line break or other
/// whitespace, and at most one character (the ellipsis) over `max_chars`.
pub proof fn preview_is_one_line(s: Seq<char>, max_chars: nat)
    ensures
        single_spaced(preview_of(s, max_chars)),
        preview_of(s, max_chars).len() <= max_chars + 1,
        !preview_of(s, max_chars).contains('\n'),
{
    normalized_is_single_spaced(s);
    let n = normalize_ws(s);
    let p = preview_of(s, max_chars);
    if n.len() > max_chars {
        let t = n.take(max_chars as int);
        assert(p == t.push(ellipsis()));
        assert forall|i: int| 0 <= i < p.len() implies (#[trigger] p[i] == ' ' || !is_ws(p[i])) by {
            if i < t.len() {
                assert(p[i] == n[i]);
            }
        }
        assert forall|i: int| 0 <= i < p.len() - 1 implies !(#[trigger] p[i] == ' ' && p[i + 1] == ' ') by {
            if i + 1 < t.len() {
                assert(p[i] == n[i] && p[i + 1] == n[i + 1]);
            }
        }
    }
    if p.contains('\n') {
        let i = choose|i: int| 0 <= i < p.len() && p[i] == '\n';
        assert(p[i] == ' ' || !is_ws(p[i]));
    }
}

/// Collapses whitespace runs to single spaces and drops leading and trailing whitespace.
pub fn normalize_whitespace(v: &Vec<char>) -> (r: Vec<char>)
    ensures
        r@ == normalize_ws(v@),
{
    let mut out: Vec<char> = Vec::new();
    let mut i: usize = 0;
    while i < v.len()
        invariant
            i <= v.len(),
            out@ == normalize_ws(v@.take(i as int)),
        decreases v.len() - i,
    {
        let c = v[i];
        let ghost pre = v@.take(i as int);
        let ghost cur = v@.take(i as int + 1);
        assert(cur.drop_last() =~= pre);
        assert(cur.last() == c);
        if is_whitespace(c) {
        } else if i > 0 && !is_whitespace(v[i - 1]) {
            proof {
                assert(pre.last() == v@[i - 1]);
                lemma_split_nonempty(pre);
                lemma_join_extend(split_ws(pre), c);
            }
            out.push(c);
        } else {
            proof {
                lemma_join_push(split_ws(pre), seq![c]);
            }
            if out.len() > 0 {
                out.push(' ');
            }
            proof {
                lemma_split_words_nonempty(pre);
                lemma_join_empty_iff(split_ws(pre));
            }
            out.push(c);
        }
        i = i + 1;
    }
    assert(v@.take(v.len() as int) =~= v@);
    out
}

/// Copies `v[start..end]`.
pub fn slice_chars(v: &Vec<char>, start: usize, end: usize) -> (r: Vec<char>)
    requires
        start <= end <= v@.len(),
    ensures
        r@ == v@.subrange(start as int, end as int),
{
    let mut r: Vec<char> = Vec::new();
    let mut i = start;
    while i < end
        invariant
            start <= i <= end <= v@.len(),
            r@ == v@.subrange(start as int, i as int),
        decreases end - i,
    {
        r.push(v[i]);
        i = i + 1;
    }
    r
}

/// `s` without leading whitespace.
pub open spec fn trim_start_ws(s: Seq<char>) -> Seq<char>
    decreases s.len(),
{
    if s.len() > 0 && is_ws(s[0]) {
        trim_start_ws(s.drop_first())
    } else {
        s
    }
}

/// `s` without trailing whitespace.
pub open spec fn trim_end_ws(s: Seq<char>) -> Seq<char>
    decreases s.len(),
{
    if s.len() > 0 && is_ws(s.last()) {
        trim_end_ws(s.drop_last())
    } else {
        s
    }
}

/// `s` without leading or trailing whitespace (`str::trim`).
pub open spec fn trim_ws(s: Seq<char>) -> Seq<char> {
    trim_start_ws(trim_end_ws(s))
}

proof fn lemma_trim_start_sub(s: Seq<char>, i: int)
    requires
        0 <= i <= s.len(),
        forall|k: int| 0 <= k < i ==> is_ws(#[trigger] s[k]),
    ensures
        trim_start_ws(s) == trim_start_ws(s.subrange(i, s.len() as int)),
    decreases i,
{
    if i > 0 {
        assert(is_ws(s[0]));
        let t = s.drop_first();
        assert forall|k: int| 0 <= k < i - 1 implies is_ws(#[trigger] t[k]) by {
            assert(t[k] == s[k + 1]);
        }
        lemma_trim_start_sub(t, i - 1);
        assert(t.subrange(i - 1, t.len() as int) =~= s.subrange(i, s.len() as int));
    } else {
        assert(s.subrange(0, s.len() as int) =~= s);
    }
}

proof fn lemma_trim_end_sub(s: Seq<char>, j: int)
    requires
        0 <= j <= s.len(),
        forall|k: int| j <= k < s.len() ==> is_ws(#[trigger] s[k]),
    ensures
        trim_end_ws(s) == trim_end_ws(s.subrange(0, j)),
    decreases s.len() - j,
{
    if j < s.len() {
        assert(is_ws(s[s.len() - 1]));
        let t = s.drop_last();
        lemma_trim_end_sub(t, j);
        assert(t.subrange(0, j) =~= s.subrange(0, j));
    } else {
        assert(s.subrange(0, j) =~= s);
    }
}

/// Copies `v` without trailing whitespace (`str::trim_end`).
pub fn trim_end_chars(v: &Vec<char>) -> (r: Vec<char>)
    ensures
        r@ == trim_end_ws(v@),
{
    let mut j: usize = v.len();
    while j > 0 && is_whitespace(v[j - 1])
        invariant
            j <= v.len(),
            forall|k: int| j <= k < v@.len() ==> is_ws(#[trigger] v@[k]),
        decreases j,
    {
        j = j - 1;
    }
    proof {
        lemma_trim_end_sub(v@, j as int);
    }
    let ghost e = v@.subrange(0, j as int);
    assert(j == 0 || !is_ws(e.last()));
    assert(trim_end_ws(e) == e);
    slice_chars(v, 0, j)
}

/// Copies `v` without leading or trailing whitespace.
pub fn trim_chars(v: &Vec<char>) -> (r: Vec<char>)
    ensures
        r@ == trim_ws(v@),
{
    let mut j: usize = v.len();
    while j > 0 && is_whitespace(v[j - 1])
        invariant
            j <= v.len(),
            forall|k: int| j <= k < v@.len() ==> is_ws(#[trigger] v@[k]),
        decreases j,
    {
        j = j - 1;
    }
    proof {
        lemma_trim_end_sub(v@, j as int);
    }
    let ghost e = v@.subrange(0, j as int);
    assert(j == 0 || !is_ws(e.last()));
    assert(trim_end_ws(e) == e);
    let mut i: usize = 0;
    while i < j && is_whitespace(v[i])
        invariant
            i <= j <= v.len(),
            e == v@.subrange(0, j as int),
            forall|k: int| 0 <= k < i ==> is_ws(#[trigger] v@[k]),
        decreases j - i,
    {
        i = i + 1;
    }
    proof {
        assert forall|k: int| 0 <= k < i implies is_ws(#[trigger] e[k]) by {
            assert(e[k] == v@[k]);
        }
        lemma_trim_start_sub(e, i as int);
        let t = e.subrange(i as int, e.len() as int);
        assert(t.len() == 0 || !is_ws(t[0]));
        assert(t =~= v@.subrange(i as int, j as int));
    }
    slice_chars(v, i, j)
}

/// The ellipsis appended to shortened text.
pub open spec fn ellipsis() -> char {
    '\u{2026}'
}

/// What `preview` shows of `s`: the whitespace-normalised text, cut to
/// `max_chars` characters with an ellipsis when it is longer.
pub open spec fn preview_of(s: Seq<char>, max_chars: nat) -> Seq<char> {
    let n = normalize_ws(s);
    if n.len() <= max_chars {
        n
    } else {
        n.take(max_chars as int).push(ellipsis())
    }
}

/// Single-line preview of `text`: whitespace collapsed, at most `max_chars`
/// characters, followed by `…` when shortened.
pub fn preview(text: &str, max_chars: usize) -> (r: String)
    ensures
        r@ == preview_of(text@, max_chars as nat),
{
    let chars = chars_of(text);
    let mut n = normalize_whitespace(&chars);
    if n.len() > max_chars {
        n.truncate(max_chars);
        n.push('\u{2026}');
    }
    string_from_chars(n)
}

/// The window of `chars` around the match at `[match_start, match_end)`,
/// widened by `context` characters each side and clipped to the text,
/// whitespace-normalised, with `…` marking each side that was cut.
pub open spec fn snippet_window(
    chars: Seq<char>,
    match_start: nat,
    match_end: nat,
    context: nat,
) -> Seq<char> {
    let start = if match_start >= context {
        (match_start - context) as nat
    } else {
        0nat
    };
    let end = if match_end + context <= chars.len() {
        match_end + context
    } else {
        chars.len()
    };
    let prefix = if start > 0 {
        seq![ellipsis()]
    } else {
        Seq::empty()
    };
    let suffix = if end < chars.len() {
        seq![ellipsis()]
    } else {
        Seq::empty()
    };
    prefix + normalize_ws(chars.subrange(start as int, end as int)) + suffix
}

/// A snippet is one line: single-spaced, with no line break or other
/// whitespace.
pub proof fn snippet_is_one_line(chars: Seq<char>, match_start: nat, match_end: nat, context: nat)
    requires
        match_start <= match_end <= chars.len(),
    ensures
        single_spaced(snippet_window(chars, match_start, match_end, context)),
        !snippet_window(chars, match_start, match_end, context).contains('\n'),
{
    let start = if match_start >= context {
        (match_start - context) as nat
    } else {
        0nat
    };
    let end = if match_end + context <= chars.len() {
        match_end + context
    } else {
        chars.len()
    };
    let sub = chars.subrange(start as int, end as int);
    normalized_is_single_spaced(sub);
    let n = normalize_ws(sub);
    let prefix = if start > 0 {
        seq![ellipsis()]
    } else {
        Seq::<char>::empty()
    };
    let suffix = if end < chars.len() {
        seq![ellipsis()]
    } else {
        Seq::<char>::empty()
    };
    let w = snippet_window(chars, match_start, match_end, context);
    assert(w == prefix + n + suffix);
    let pl = prefix.len() as int;
    assert forall|i: int| 0 <= i < w.len() implies (#[trigger] w[i] == ' ' || !is_ws(w[i])) by {
        if i < pl {
            assert(w[i] == ellipsis());
        } else if i < pl + n.len() {
            assert(w[i] == n[i - pl]);
        } else {
            assert(w[i] == ellipsis());
        }
    }
    assert forall|i: int| 0 <= i < w.len() - 1 implies !(#[trigger] w[i] == ' ' && w[i + 1] == ' ') by {
        if pl <= i && i + 1 < pl + n.len() {
            assert(w[i] == n[i - pl] && w[i + 1] == n[i + 1 - pl]);
        } else if i < pl {
            assert(w[i] == ellipsis());
        } else {
            assert(w[i + 1] == ellipsis());
        }
    }
    if w.contains('\n') {
        let i = choose|i: int| 0 <= i < w.len() && w[i] == '\n';
        assert(w[i] == ' ' || !is_ws(w[i]));
    }
}

/// When `snippet_at_chars` can cut its window: the widened end does not overflow
/// and the window does not start after it ends.
pub open spec fn window_ok(len: nat, match_start: nat, match_end: nat, context: nat) -> bool {
    &&& match_end + context <= usize::MAX
    &&& (if match_start >= context {
        match_start - context
    } else {
        0
    }) <= (if match_end + context <= len {
        (match_end + context) as int
    } else {
        len as int
    })
}

/// The snippet of `text` around the character range `[match_start, match_end)`.
pub fn snippet_at_chars(text: &str, match_start: usize, match_end: usize, context: usize) -> (r:
    String)
    requires
        window_ok(text@.len(), match_start as nat, match_end as nat, context as nat),
    ensures
        r@ == snippet_window(text@, match_start as nat, match_end as nat, context as nat),
{
    let chars = chars_of(text);
    let r = window_chars(&chars, match_start, match_end, context);
    string_from_chars(r)
}

/// The snippet window of `chars` around `[match_start, match_end)`.
pub fn window_chars(chars: &Vec<char>, match_start: usize, match_end: usize, context: usize) -> (r:
    Vec<char>)
    requires
        window_ok(chars@.len(), match_start as nat, match_end as nat, context as nat),
    ensures
        r@ == snippet_window(chars@, match_start as nat, match_end as nat, context as nat),
{
    let start = if match_start >= context {
        match_start - context
    } else {
        0
    };
    let end = if match_end + context <= chars.len() {
        match_end + context
    } else {
        chars.len()
    };
    let raw = slice_chars(chars, start, end);
    let norm = normalize_whitespace(&raw);
    let mut out: Vec<char> = Vec::new();
    if start > 0 {
        out.push('\u{2026}');
    }
    let mut i: usize = 0;
    let ghost pre = out@;
    while i < norm.len()
        invariant
            i <= norm.len(),
            out@ == pre + norm@.take(i as int),
        decreases norm.len() - i,
    {
        out.push(norm[i]);
        i = i + 1;
    }
    assert(norm@.take(norm.len() as int) =~= norm@);
    if end < chars.len() {
        out.push('\u{2026}');
    }
    out
}

/// The number of bytes UTF-8 uses for `c`.
pub open spec fn utf8_width(c: char) -> nat {
    if (c as u32) < 0x80 {
        1
    } else if (c as u32) < 0x800 {
        2
    } else if (c as u32) < 0x10000 {
        3
    } else {
        4
    }
}

/// The length in bytes of the UTF-8 encoding of `s`.
pub open spec fn utf8_len(s: Seq<char>) -> nat
    decreases s.len(),
{
    if s.len() == 0 {
        0
    } else {
        utf8_len(s.drop_last()) + utf8_width(s.last())
    }
}

/// The number of bytes UTF-8 uses for `c` (`char::len_utf8`).
pub fn char_utf8_width(c: char) -> (r: u8)
    ensures
        r as nat == utf8_width(c),
{
    let x = c as u32;
    if x < 0x80 {
        1
    } else if x < 0x800 {
        2
    } else if x < 0x10000 {
        3
    } else {
        4
    }
}

proof fn lemma_utf8_len_take_step(s: Seq<char>, j: int)
    requires
        0 < j <= s.len(),
    ensures
        utf8_len(s.take(j)) == utf8_len(s.take(j - 1)) + utf8_width(s[j - 1]),
{
    assert(s.take(j).drop_last() =~= s.take(j - 1));
}

pub(crate) proof fn lemma_utf8_len_take_mono(s: Seq<char>, i: int, j: int)
    requires
        0 <= i < j <= s.len(),
    ensures
        utf8_len(s.take(i)) < utf8_len(s.take(j)),
    decreases j - i,
{
    lemma_utf8_len_take_step(s, j);
    if i < j - 1 {
        lemma_utf8_len_take_mono(s, i, j - 1);
    }
}

/// Whether byte offset `b` of the UTF-8 encoding of `s` falls just before the
/// character at index `j` (or at the end, for `j == s.len()`).
pub open spec fn is_char_pos_at_byte(s: Seq<char>, b: int, j: int) -> bool {
    0 <= j <= s.len() && utf8_len(s.take(j)) == b
}

/// The number of characters before byte offset `b` of `s`, when `b` is a
/// character boundary of its UTF-8 encoding.
pub open spec fn char_pos_at_byte(s: Seq<char>, b: int) -> Option<int> {
    if exists|j: int| is_char_pos_at_byte(s, b, j) {
        Some(choose|j: int| is_char_pos_at_byte(s, b, j))
    } else {
        None
    }
}

proof fn lemma_char_pos_unique(s: Seq<char>, b: int, j: int)
    requires
        is_char_pos_at_byte(s, b, j),
    ensures
        char_pos_at_byte(s, b) == Some(j),
{
    let k = choose|k: int| is_char_pos_at_byte(s, b, k);
    if k < j {
        lemma_utf8_len_take_mono(s, k, j);
    } else if j < k {
        lemma_utf8_len_take_mono(s, j, k);
    }
}

/// How many characters of `v` lie before byte offset `b` of its UTF-8 encoding;
/// `None` when `b` is not a character boundary.
pub fn char_count_before_byte(v: &Vec<char>, b: u128) -> (r: Option<usize>)
    ensures
        r matches Some(j) ==> char_pos_at_byte(v@, b as int) == Some(j as int),
        r is None ==> char_pos_at_byte(v@, b as int) is None,
{
    let mut j: usize = 0;
    let mut acc: u128 = 0;
    assert(v@.take(0) =~= Seq::<char>::empty());
    loop
        invariant
            j <= v@.len(),
            acc == utf8_len(v@.take(j as int)),
            acc <= 4 * j,
            forall|k: int| 0 <= k < j ==> utf8_len(#[trigger] v@.take(k)) < b,
        decreases v@.len() - j,
    {
        if acc == b {
            proof {
                lemma_char_pos_unique(v@, b as int, j as int);
            }
            return Some(j);
        }
        if acc > b || j == v.len() {
            proof {
                assert forall|k: int| !is_char_pos_at_byte(v@, b as int, k) by {
                    if 0 <= k < j {
                        assert(utf8_len(v@.take(k)) < b);
                    } else if j < k <= v@.len() {
                        lemma_utf8_len_take_mono(v@, j as int, k);
                    }
                }
            }
            return None;
        }
        let w = char_utf8_width(v[j]);
        proof {
            lemma_utf8_len_take_step(v@, j as int + 1);
        }
        acc = acc + w as u128;
        j = j + 1;
    }
}

/// The UTF-8 length of `v[..j]`.
pub fn utf8_len_of_prefix(v: &Vec<char>, j: usize) -> (r: u128)
    requires
        j <= v@.len(),
    ensures
        r == utf8_len(v@.take(j as int)),
{
    let mut i: usize = 0;
    let mut acc: u128 = 0;
    assert(v@.take(0) =~= Seq::<char>::empty());
    while i < j
        invariant
            i <= j <= v@.len(),
            acc == utf8_len(v@.take(i as int)),
            acc <= 4 * i,
        decreases j - i,
    {
        let w = char_utf8_width(v[i]);
        proof {
            lemma_utf8_len_take_step(v@, i as int + 1);
        }
        acc = acc + w as u128;
        i = i + 1;
    }
    acc
}

/// Whether `needle` occurs in `hay` starting at index `k`.
pub open spec fn occurs_at(hay: Seq<char>, needle: Seq<char>, k: int) -> bool {
    0 <= k && k + needle.len() <= hay.len() && hay.subrange(k, k + needle.len()) == needle
}

/// Whether `k` is the first index at which `needle` occurs in `hay`.
pub open spec fn is_first_occurrence(hay: Seq<char>, needle: Seq<char>, k: int) -> bool {
    occurs_at(hay, needle, k) && forall|j: int| 0 <= j < k ==> !occurs_at(hay, needle, j)
}

/// The index of the first occurrence of `needle` in `hay`, if any
/// (`str::find` counted in characters).
pub open spec fn find_first(hay: Seq<char>, needle: Seq<char>) -> Option<int> {
    if exists|k: int| is_first_occurrence(hay, needle, k) {
        Some(choose|k: int| is_first_occurrence(hay, needle, k))
    } else {
        None
    }
}

proof fn lemma_first_unique(hay: Seq<char>, needle: Seq<char>, k: int)
    requires
        is_first_occurrence(hay, needle, k),
    ensures
        find_first(hay, needle) == Some(k),
{
    let c = choose|c: int| is_first_occurrence(hay, needle, c);
    assert(c == k);
}

fn occurs_at_exec(hay: &Vec<char>, needle: &Vec<char>, k: usize) -> (r: bool)
    requires
        k + needle@.len() <= hay@.len(),
    ensures
        r == occurs_at(hay@, needle@, k as int),
{
    let hl = hay.len();
    let mut i: usize = 0;
    while i < needle.len()
        invariant
            hl == hay@.len(),
            k + needle@.len() <= hay@.len(),
            i <= needle@.len(),
            forall|t: int| 0 <= t < i ==> hay@[k + t] == needle@[t],
        decreases needle@.len() - i,
    {
        if hay[k + i] != needle[i] {
            assert(hay@.subrange(k as int, k + needle@.len())[i as int] != needle@[i as int]);
            return false;
        }
        i = i + 1;
    }
    assert(hay@.subrange(k as int, k + needle@.len()) =~= needle@);
    true
}

/// The index of the first occurrence of `needle` in `hay`.
pub fn find_chars(hay: &Vec<char>, needle: &Vec<char>) -> (r: Option<usize>)
    ensures
        r matches Some(k) ==> find_first(hay@, needle@) == Some(k as int),
        r is None ==> find_first(hay@, needle@) is None,
        r is None ==> forall|k: int| !occurs_at(hay@, needle@, k),
{
    if needle.len() > hay.len() {
        return None;
    }
    let last = hay.len() - needle.len();
    let mut k: usize = 0;
    loop
        invariant
            last + needle@.len() == hay@.len(),
            k <= last,
            forall|j: int| 0 <= j < k ==> !occurs_at(hay@, needle@, j),
        decreases last - k,
    {
        if occurs_at_exec(hay, needle, k) {
            proof {
                lemma_first_unique(hay@, needle@, k as int);
            }
            return Some(k);
        }
        if k == last {
            assert forall|j: int| !occurs_at(hay@, needle@, j) by {
                if j > last {
                    assert(j + needle@.len() > hay@.len());
                }
            }
            return None;
        }
        k = k + 1;
    }
}

/// What `str::to_lowercase` makes of `s`.
pub uninterp spec fn lowercase(s: Seq<char>) -> Seq<char>;

/// Lower-cases `s` (std's `str::to_lowercase`); the result is named `lowercase`.
#[verifier::external_body]
pub(crate) fn to_lowercase(s: &str) -> (r: String)
    ensures
        r@ == lowercase(s@),
{
    s.to_lowercase()
}

/// The decimal digit character for `d < 10`.
pub open spec fn digit_char(d: nat) -> char {
    ((d + 48) as u8) as char
}

/// The decimal representation of `n`, without leading zeros.
pub open spec fn decimal(n: nat) -> Seq<char>
    decreases n,
{
    if n < 10 {
        seq![digit_char(n)]
    } else {
        decimal(n / 10).push(digit_char(n % 10))
    }
}

/// The decimal representation of the signed `n` (with a leading `-` when negative).
pub open spec fn signed_decimal(n: int) -> Seq<char> {
    if n < 0 {
        seq!['-'] + decimal((-n) as nat)
    } else {
        decimal(n as nat)
    }
}

/// The decimal digits of `n` (what `{}` prints for an unsigned integer).
pub fn decimal_chars(n: u128) -> (r: Vec<char>)
    ensures
        r@ == decimal(n as nat),
    decreases n,
{
    if n < 10 {
        let d = (n as u8 + 48) as char;
        vec![d]
    } else {
        let mut r = decimal_chars(n / 10);
        let d = ((n % 10) as u8 + 48) as char;
        r.push(d);
        r
    }
}

/// The decimal representation of `n` (what `{}` prints for an `i64`).
pub fn signed_decimal_chars(n: i64) -> (r: Vec<char>)
    ensures
        r@ == signed_decimal(n as int),
{
    if n < 0 {
        let mag: u128 = (-(n as i128)) as u128;
        let digits = decimal_chars(mag);
        let mut r: Vec<char> = vec!['-'];
        append_chars(&mut r, &digits);
        r
    } else {
        decimal_chars(n as u128)
    }
}

/// Appends the characters of `b` to `a`.
pub fn append_chars(a: &mut Vec<char>, b: &Vec<char>)
    ensures
        final(a)@ == old(a)@ + b@,
{
    let mut i: usize = 0;
    while i < b.len()
        invariant
            i <= b@.len(),
            a@ == old(a)@ + b@.take(i as int),
        decreases b@.len() - i,
    {
        a.push(b[i]);
        i = i + 1;
    }
    assert(b@.take(b@.len() as int) =~= b@);
}

/// `n` spaces.
pub open spec fn spaces(n: nat) -> Seq<char> {
    Seq::new(n, |i: int| ' ')
}

/// `s` padded on the right with spaces to `width` characters (`{:<width$}`).
pub open spec fn pad_right(s: Seq<char>, width: nat) -> Seq<char> {
    if s.len() >= width {
        s
    } else {
        s + spaces((width - s.len()) as nat)
    }
}

/// Appends `s` padded on the right with spaces to `width` characters.
pub fn push_padded(out: &mut Vec<char>, s: &Vec<char>, width: u128)
    ensures
        final(out)@ == old(out)@ + pad_right(s@, width as nat),
{
    append_chars(out, s);
    let mut n: u128 = s.len() as u128;
    let ghost base = out@;
    while n < width
        invariant
            s@.len() <= n <= if s@.len() <= width { width as int } else { s@.len() as int },
            out@ == base + spaces((n - s@.len()) as nat),
        decreases width - n,
    {
        out.push(' ');
        n = n + 1;
        assert(out@ =~= base + spaces((n - s@.len()) as nat));
    }
    assert(out@ =~= old(out)@ + pad_right(s@, width as nat));
}

/// The UTF-8 length of `v`.
pub fn utf8_len_chars(v: &Vec<char>) -> (r: u128)
    ensures
        r == utf8_len(v@),
{
    let r = utf8_len_of_prefix(v, v.len());
    assert(v@.take(v@.len() as int) =~= v@);
    r
}

} // verus!
