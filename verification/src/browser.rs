//! Choosing the browser, and its private-mode flag, for opening a URL item.

use vstd::prelude::*;

use crate::search::opt_chars;
use crate::tagging::strings_view;
use crate::text::{chars_eq, chars_of, decimal, decimal_chars, str_eq, trim_chars, trim_ws, string_from_chars};
use crate::vault::Item;

verus! {

/// Browser names known for prefix resolution (the alias `chrome` included).
pub open spec fn known_browser_names() -> Seq<Seq<char>> {
    seq![
        "firefox"@,
        "google-chrome"@,
        "chrome"@,
        "chromium"@,
        "chromium-browser"@,
        "brave-browser"@,
        "vivaldi"@,
        "vivaldi-stable"@,
    ]
}

/// Browsers with a known private-mode flag, with that flag.
pub open spec fn private_flag_table() -> Seq<(Seq<char>, Seq<char>)> {
    seq![
        ("firefox"@, "--private-window"@),
        ("google-chrome"@, "--incognito"@),
        ("chromium"@, "--incognito"@),
        ("chromium-browser"@, "--incognito"@),
        ("brave-browser"@, "--incognito"@),
        ("vivaldi"@, "--incognito"@),
        ("vivaldi-stable"@, "--incognito"@),
    ]
}

/// The names known for prefix resolution.
pub fn known_browsers() -> (r: Vec<&'static str>)
    ensures
        r@.map_values(|s: &str| s@) == known_browser_names(),
{
    let r = vec![
        "firefox",
        "google-chrome",
        "chrome",
        "chromium",
        "chromium-browser",
        "brave-browser",
        "vivaldi",
        "vivaldi-stable",
    ];
    assert(r@.map_values(|s: &str| s@) =~= known_browser_names());
    r
}

/// The browsers with a known private-mode flag, each with its flag.
pub fn private_flags() -> (r: Vec<(&'static str, &'static str)>)
    ensures
        r@.map_values(|p: (&str, &str)| (p.0@, p.1@)) == private_flag_table(),
{
    let r = vec![
        ("firefox", "--private-window"),
        ("google-chrome", "--incognito"),
        ("chromium", "--incognito"),
        ("chromium-browser", "--incognito"),
        ("brave-browser", "--incognito"),
        ("vivaldi", "--incognito"),
        ("vivaldi-stable", "--incognito"),
    ];
    assert(r@.map_values(|p: (&str, &str)| (p.0@, p.1@)) =~= private_flag_table());
    r
}

/// The canonical name of a browser: `chrome` is `google-chrome`.
pub open spec fn normalize_spec(b: Seq<char>) -> Seq<char> {
    if b == "chrome"@ {
        "google-chrome"@
    } else {
        b
    }
}

/// The canonical name of `browser` (`chrome` becomes `google-chrome`).
pub fn normalize_browser<'a>(browser: &'a str) -> (r: &'a str)
    ensures
        r@ == normalize_spec(browser@),
{
    if str_eq(browser, "chrome") {
        "google-chrome"
    } else {
        browser
    }
}

/// Whether `p` is a prefix of `s`.
pub open spec fn is_prefix(p: Seq<char>, s: Seq<char>) -> bool {
    p.len() <= s.len() && s.take(p.len() as int) == p
}

/// The names of `names` that start with `input`, in order.
pub open spec fn prefix_matches(names: Seq<Seq<char>>, input: Seq<char>) -> Seq<Seq<char>>
    decreases names.len(),
{
    if names.len() == 0 {
        Seq::empty()
    } else {
        let prev = prefix_matches(names.drop_last(), input);
        if is_prefix(input, names.last()) {
            prev.push(names.last())
        } else {
            prev
        }
    }
}

/// How a browser name resolves: an exact known name or a unique prefix of one
/// gives its canonical name, an unknown name passes through, and a prefix of
/// several known names is ambiguous (`Err` lists them).
pub open spec fn resolve_spec(input: Seq<char>) -> Result<Seq<char>, Seq<Seq<char>>> {
    let known = known_browser_names();
    if known.contains(input) {
        Ok(normalize_spec(input))
    } else {
        let m = prefix_matches(known, input);
        if m.len() == 0 {
            Ok(input)
        } else if m.len() == 1 {
            Ok(normalize_spec(m[0]))
        } else {
            Err(m)
        }
    }
}

/// Why a browser could not be chosen or launched.
#[derive(Debug)]
pub enum BrowserError {
    /// The name is a prefix of several known browsers.
    Ambiguous { input: String, matches: Vec<String> },
}

/// Whether `p` is a prefix of `s`.
fn starts_with_chars(s: &Vec<char>, p: &Vec<char>) -> (r: bool)
    ensures
        r == is_prefix(p@, s@),
{
    if p.len() > s.len() {
        return false;
    }
    let mut i: usize = 0;
    while i < p.len()
        invariant
            p@.len() <= s@.len(),
            i <= p@.len(),
            forall|k: int| 0 <= k < i ==> s@[k] == p@[k],
        decreases p@.len() - i,
    {
        if s[i] != p[i] {
            assert(s@.take(p@.len() as int)[i as int] != p@[i as int]);
            return false;
        }
        i = i + 1;
    }
    assert(s@.take(p@.len() as int) =~= p@);
    true
}

/// Resolves a browser name to its canonical form: an exact known name is
/// normalised, a unique prefix of a known name resolves to it, an ambiguous
/// prefix is an error listing the candidates, and any other name passes
/// through unchanged.
pub fn resolve_browser(input: &str) -> (r: Result<String, BrowserError>)
    ensures
        r matches Ok(s) ==> resolve_spec(input@) == Ok::<Seq<char>, Seq<Seq<char>>>(s@),
        r matches Err(BrowserError::Ambiguous { input: i, matches: m }) ==> i@ == input@
            && resolve_spec(input@) == Err::<Seq<char>, Seq<Seq<char>>>(m@.map_values(|s: String| s@)),
        r is Ok <==> resolve_spec(input@) is Ok,
{
    let known = known_browsers();
    let ghost kn = known_browser_names();
    let iv = chars_of(input);
    let mut exact = false;
    let mut matches: Vec<String> = Vec::new();
    let mut i: usize = 0;
    assert(kn.take(0) =~= Seq::<Seq<char>>::empty());
    while i < known.len()
        invariant
            i <= known@.len(),
            known@.map_values(|s: &str| s@) == kn,
            kn == known_browser_names(),
            iv@ == input@,
            exact == kn.take(i as int).contains(input@),
            matches@.map_values(|s: String| s@) == prefix_matches(kn.take(i as int), input@),
        decreases known@.len() - i,
    {
        let name = known[i];
        let nv = chars_of(name);
        assert(kn[i as int] == name@);
        assert(kn.take(i as int + 1).drop_last() =~= kn.take(i as int));
        assert(kn.take(i as int + 1) =~= kn.take(i as int).push(name@));
        if chars_eq(&nv, &iv) {
            exact = true;
        }
        proof {
            let t = kn.take(i as int + 1);
            let t0 = kn.take(i as int);
            if t0.contains(input@) {
                let k = choose|k: int| 0 <= k < t0.len() && t0[k] == input@;
                assert(t[k] == input@);
            }
            if name@ == input@ {
                assert(t[i as int] == input@);
            }
            if t.contains(input@) {
                let k = choose|k: int| 0 <= k < t.len() && t[k] == input@;
                if k < i {
                    assert(t0[k] == input@);
                }
            }
        }
        if starts_with_chars(&nv, &iv) {
            let ghost old_m = matches@;
            matches.push(name.to_owned());
            assert(matches@.map_values(|s: String| s@) =~= old_m.map_values(|s: String| s@).push(name@));
        }
        i = i + 1;
    }
    assert(kn.take(known@.len() as int) =~= kn);
    if exact {
        return Ok(normalize_browser(input).to_owned());
    }
    if matches.len() == 0 {
        Ok(input.to_owned())
    } else if matches.len() == 1 {
        assert(matches@.map_values(|s: String| s@)[0] == matches@[0]@);
        Ok(normalize_browser(matches[0].as_str()).to_owned())
    } else {
        Err(BrowserError::Ambiguous { input: input.to_owned(), matches })
    }
}

proof fn lemma_prefix_matches_known(names: Seq<Seq<char>>, input: Seq<char>)
    ensures
        forall|k: int|
            0 <= k < prefix_matches(names, input).len() ==> names.contains(
                #[trigger] prefix_matches(names, input)[k],
            ),
    decreases names.len(),
{
    if names.len() > 0 {
        let init = names.drop_last();
        lemma_prefix_matches_known(init, input);
        let prev = prefix_matches(init, input);
        assert forall|k: int|
            0 <= k < prefix_matches(names, input).len() implies names.contains(
                #[trigger] prefix_matches(names, input)[k],
            ) by {
            let pm = prefix_matches(names, input);
            if k < prev.len() {
                assert(pm[k] == prev[k]);
                let j = choose|j: int| 0 <= j < init.len() && init[j] == prev[k];
                assert(names[j] == prev[k]);
            } else {
                assert(pm[k] == names.last());
                assert(names[names.len() - 1] == names.last());
            }
        }
    }
}

proof fn lemma_normalize_known(b: Seq<char>)
    requires
        known_browser_names().contains(b),
    ensures
        known_browser_names().contains(normalize_spec(b)),
        normalize_spec(normalize_spec(b)) == normalize_spec(b),
{
    reveal_strlit("chrome");
    reveal_strlit("google-chrome");
    assert(known_browser_names()[1] == "google-chrome"@);
    assert("google-chrome"@.len() != "chrome"@.len());
}

proof fn lemma_normalize_not_chrome(b: Seq<char>)
    ensures
        normalize_spec(b) != "chrome"@,
{
    reveal_strlit("chrome");
    reveal_strlit("google-chrome");
    assert("google-chrome"@.len() != "chrome"@.len());
}

/// What a resolved name is: never the alias `chrome`, either the name given
/// or one of the known browsers, and a fixed point: the resolved name
/// resolves to itself.
pub proof fn resolve_browser_idempotent(input: Seq<char>, out: Seq<char>)
    requires
        resolve_spec(input) == Ok::<Seq<char>, Seq<Seq<char>>>(out),
    ensures
        out != "chrome"@,
        out == input || known_browser_names().contains(out),
        resolve_spec(out) == Ok::<Seq<char>, Seq<Seq<char>>>(out),
{
    let known = known_browser_names();
    assert(known[2] == "chrome"@);
    if known.contains(input) {
        lemma_normalize_known(input);
        lemma_normalize_not_chrome(input);
    } else {
        let m = prefix_matches(known, input);
        if m.len() == 1 {
            lemma_prefix_matches_known(known, input);
            assert(known.contains(m[0]));
            lemma_normalize_known(m[0]);
            lemma_normalize_not_chrome(m[0]);
        }
    }
}

/// The empty name is a prefix of every known browser, so it is ambiguous.
pub proof fn resolve_empty_is_ambiguous()
    ensures
        resolve_spec(Seq::<char>::empty()) is Err,
{
    let known = known_browser_names();
    let e = Seq::<char>::empty();
    reveal_strlit("firefox");
    reveal_strlit("google-chrome");
    reveal_strlit("chrome");
    reveal_strlit("chromium");
    reveal_strlit("chromium-browser");
    reveal_strlit("brave-browser");
    reveal_strlit("vivaldi");
    reveal_strlit("vivaldi-stable");
    assert forall|k: int| 0 <= k < known.len() implies (#[trigger] known[k]).len() > 0 && is_prefix(
        e,
        known[k],
    ) by {
        assert(known[k].take(0) =~= e);
    }
    assert(!known.contains(e));
    lemma_prefix_matches_len_last_two(known, e);
}

proof fn lemma_prefix_matches_len_last_two(names: Seq<Seq<char>>, input: Seq<char>)
    requires
        names.len() >= 2,
        is_prefix(input, names[names.len() - 1]),
        is_prefix(input, names[names.len() - 2]),
    ensures
        prefix_matches(names, input).len() >= 2,
{
    let init = names.drop_last();
    assert(init.last() == names[names.len() - 2]);
    assert(prefix_matches(init, input).len() == prefix_matches(init.drop_last(), input).len() + 1);
    assert(prefix_matches(names, input).len() == prefix_matches(init, input).len() + 1);
}

/// Normalising twice is normalising once.
pub proof fn normalize_browser_idempotent(b: Seq<char>)
    ensures
        normalize_spec(normalize_spec(b)) == normalize_spec(b),
{
    reveal_strlit("chrome");
    reveal_strlit("google-chrome");
    assert("google-chrome"@.len() != "chrome"@.len());
}

/// The value of the first pair whose key is `key`.
pub open spec fn lookup_pair(pairs: Seq<(Seq<char>, Seq<char>)>, key: Seq<char>) -> Option<Seq<char>>
    decreases pairs.len(),
{
    if pairs.len() == 0 {
        None
    } else if pairs[0].0 == key {
        Some(pairs[0].1)
    } else {
        lookup_pair(pairs.drop_first(), key)
    }
}

/// The characters of each pair of strings.
pub open spec fn pairs_view(v: Seq<(String, String)>) -> Seq<(Seq<char>, Seq<char>)> {
    v.map_values(|p: (String, String)| (p.0@, p.1@))
}

/// The private-mode flag of browser `b`: the built-in table first, then the
/// flags configured under `[browser_flags]`.
pub open spec fn private_flag_spec(b: Seq<char>, cfg_flags: Seq<(Seq<char>, Seq<char>)>) -> Option<
    Seq<char>,
> {
    match lookup_pair(private_flag_table(), b) {
        Some(f) => Some(f),
        None => lookup_pair(cfg_flags, b),
    }
}

/// The value for `key` among `pairs`, the first matching pair winning.
fn lookup_pair_exec(pairs: &Vec<(String, String)>, key: &Vec<char>) -> (r: Option<String>)
    ensures
        r matches Some(v) ==> lookup_pair(pairs_view(pairs@), key@) == Some(v@),
        r is None ==> lookup_pair(pairs_view(pairs@), key@) is None,
{
    let ghost pv = pairs_view(pairs@);
    let mut i: usize = 0;
    assert(pv.subrange(0, pv.len() as int) =~= pv);
    while i < pairs.len()
        invariant
            i <= pairs@.len(),
            pv == pairs_view(pairs@),
            lookup_pair(pv, key@) == lookup_pair(pv.subrange(i as int, pv.len() as int), key@),
        decreases pairs@.len() - i,
    {
        let ghost rest = pv.subrange(i as int, pv.len() as int);
        assert(rest.drop_first() =~= pv.subrange(i as int + 1, pv.len() as int));
        assert(rest[0] == (pairs@[i as int].0@, pairs@[i as int].1@));
        let k = chars_of(pairs[i].0.as_str());
        if chars_eq(&k, key) {
            return Some(pairs[i].1.clone());
        }
        i = i + 1;
    }
    None
}

/// The private-mode flags: Firefox opens with `--private-window`, the
/// Chromium family with `--incognito`, whatever the configuration says; any
/// other browser takes the first flag configured for it, and has none where
/// nothing is configured for it.
pub proof fn private_flags_known_then_configured(b: Seq<char>, cfg: Seq<(Seq<char>, Seq<char>)>)
    ensures
        b == "firefox"@ ==> private_flag_spec(b, cfg) == Some("--private-window"@),
        b == "google-chrome"@ || b == "chromium"@ || b == "chromium-browser"@ || b == "brave-browser"@ || b
            == "vivaldi"@ || b == "vivaldi-stable"@ ==> private_flag_spec(b, cfg) == Some("--incognito"@),
        !(b == "firefox"@ || b == "google-chrome"@ || b == "chromium"@ || b == "chromium-browser"@ || b
            == "brave-browser"@ || b == "vivaldi"@ || b == "vivaldi-stable"@) ==> match private_flag_spec(
            b,
            cfg,
        ) {
            Some(f) => exists|j: int|
                0 <= j < cfg.len() && #[trigger] cfg[j] == (b, f) && forall|u: int|
                    0 <= u < j ==> (#[trigger] cfg[u]).0 != b,
            None => forall|j: int| 0 <= j < cfg.len() ==> (#[trigger] cfg[j]).0 != b,
        },
{
    let t = private_flag_table();
    reveal_strlit("firefox");
    reveal_strlit("google-chrome");
    reveal_strlit("chromium");
    reveal_strlit("chromium-browser");
    reveal_strlit("brave-browser");
    reveal_strlit("vivaldi");
    reveal_strlit("vivaldi-stable");
    reveal_strlit("--private-window");
    reveal_strlit("--incognito");
    assert("firefox"@[0] != "vivaldi"@[0]);
    assert("google-chrome"@[0] != "brave-browser"@[0]);
    lemma_lookup_pair(t, b);
    lemma_lookup_pair(cfg, b);
    assert(t.len() == 7);
    assert(t[0] == ("firefox"@, "--private-window"@));
    assert(t[1] == ("google-chrome"@, "--incognito"@));
    assert(t[2] == ("chromium"@, "--incognito"@));
    assert(t[3] == ("chromium-browser"@, "--incognito"@));
    assert(t[4] == ("brave-browser"@, "--incognito"@));
    assert(t[5] == ("vivaldi"@, "--incognito"@));
    assert(t[6] == ("vivaldi-stable"@, "--incognito"@));
    if let Some(f) = lookup_pair(t, b) {
        let j = choose|j: int|
            0 <= j < t.len() && #[trigger] t[j] == (b, f) && forall|u: int| 0 <= u < j ==> (#[trigger] t[u]).0 != b;
        assert(j == 0 || j == 1 || j == 2 || j == 3 || j == 4 || j == 5 || j == 6);
    }
    if !(b == "firefox"@ || b == "google-chrome"@ || b == "chromium"@ || b == "chromium-browser"@ || b
        == "brave-browser"@ || b == "vivaldi"@ || b == "vivaldi-stable"@) {
        assert(lookup_pair(t, b) is None);
    }
}

proof fn lemma_lookup_pair(pairs: Seq<(Seq<char>, Seq<char>)>, key: Seq<char>)
    ensures
        match lookup_pair(pairs, key) {
            Some(f) => exists|j: int|
                0 <= j < pairs.len() && #[trigger] pairs[j] == (key, f) && forall|u: int|
                    0 <= u < j ==> (#[trigger] pairs[u]).0 != key,
            None => forall|j: int| 0 <= j < pairs.len() ==> (#[trigger] pairs[j]).0 != key,
        },
    decreases pairs.len(),
{
    if pairs.len() > 0 {
        let rest = pairs.drop_first();
        lemma_lookup_pair(rest, key);
        if pairs[0].0 != key {
            match lookup_pair(rest, key) {
                Some(f) => {
                    let j = choose|j: int|
                        0 <= j < rest.len() && #[trigger] rest[j] == (key, f) && forall|u: int|
                            0 <= u < j ==> (#[trigger] rest[u]).0 != key;
                    assert(pairs[j + 1] == rest[j]);
                    assert forall|u: int| 0 <= u < j + 1 implies (#[trigger] pairs[u]).0 != key by {
                        if u > 0 {
                            assert(pairs[u] == rest[u - 1]);
                        }
                    }
                },
                None => {
                    assert forall|j: int| 0 <= j < pairs.len() implies (#[trigger] pairs[j]).0 != key by {
                        if j > 0 {
                            assert(pairs[j] == rest[j - 1]);
                        }
                    }
                },
            }
        } else {
            assert(pairs[0] == (key, pairs[0].1));
        }
    }
}

/// The private-mode flag for `browser`, from the built-in table or else the
/// configured flags.
pub fn private_flag_for(browser: &str, cfg_flags: &Vec<(String, String)>) -> (r: Option<String>)
    ensures
        r matches Some(f) ==> private_flag_spec(browser@, pairs_view(cfg_flags@)) == Some(f@),
        r is None ==> private_flag_spec(browser@, pairs_view(cfg_flags@)) is None,
{
    let table = private_flags();
    let mut tv: Vec<(String, String)> = Vec::new();
    let mut i: usize = 0;
    while i < table.len()
        invariant
            i <= table@.len(),
            table@.map_values(|p: (&str, &str)| (p.0@, p.1@)) == private_flag_table(),
            pairs_view(tv@) == private_flag_table().take(i as int),
        decreases table@.len() - i,
    {
        let (a, b) = table[i];
        let ghost old_tv = tv@;
        tv.push((a.to_owned(), b.to_owned()));
        assert(table@[i as int] == (a, b));
        assert(table@.map_values(|p: (&str, &str)| (p.0@, p.1@))[i as int] == (a@, b@));
        assert(private_flag_table()[i as int] == (a@, b@));
        assert(pairs_view(tv@) =~= pairs_view(old_tv).push((a@, b@)));
        assert(pairs_view(tv@) =~= private_flag_table().take(i as int + 1));
        i = i + 1;
    }
    assert(private_flag_table().take(table@.len() as int) =~= private_flag_table());
    let key = chars_of(browser);
    match lookup_pair_exec(&tv, &key) {
        Some(f) => Some(f),
        None => lookup_pair_exec(cfg_flags, &key),
    }
}

/// `c` lower-cased when it is an ASCII capital letter.
pub open spec fn ascii_lower(c: char) -> char {
    if 'A' <= c <= 'Z' {
        ((c as u32) + 32) as char
    } else {
        c
    }
}

/// Whether `s` starts with the lower-case ASCII `p`, ignoring ASCII case.
pub open spec fn starts_with_ascii_ci(s: Seq<char>, p: Seq<char>) -> bool {
    p.len() <= s.len() && forall|i: int| 0 <= i < p.len() ==> ascii_lower(#[trigger] s[i]) == p[i]
}

/// Whether `url` has an `http` or `https` scheme.
pub open spec fn is_http_url(url: Seq<char>) -> bool {
    starts_with_ascii_ci(url, "http://"@) || starts_with_ascii_ci(url, "https://"@)
}

fn starts_with_ascii_ci_exec(s: &Vec<char>, p: &Vec<char>) -> (r: bool)
    ensures
        r == starts_with_ascii_ci(s@, p@),
{
    if p.len() > s.len() {
        return false;
    }
    let mut i: usize = 0;
    while i < p.len()
        invariant
            p@.len() <= s@.len(),
            i <= p@.len(),
            forall|k: int| 0 <= k < i ==> ascii_lower(#[trigger] s@[k]) == p@[k],
        decreases p@.len() - i,
    {
        let c = s[i];
        let l = if 'A' <= c && c <= 'Z' {
            ((c as u32) + 32) as u8 as char
        } else {
            c
        };
        assert(l == ascii_lower(c)) by {
            if 'A' <= c && c <= 'Z' {
                assert(((c as u32) + 32) as u8 as char == ((c as u32) + 32) as char);
            }
        }
        if l != p[i] {
            return false;
        }
        i = i + 1;
    }
    true
}

/// What opening a URL item comes to.
#[derive(Debug)]
pub enum WebAction {
    /// Launch `browser` with the URL.
    OpenWith { browser: String, url: String },
    /// Launch `browser` with its private-mode `flag` and the URL.
    OpenPrivateWith { browser: String, flag: String, url: String },
    /// Open the URL with the system's default handler.
    OpenDefault { url: String },
    /// Try the known browsers in order, in private mode.
    OpenPrivateDiscover { url: String },
}

/// Why a URL item cannot be opened.
#[derive(Debug)]
pub enum WebError {
    /// The item is not of type `url`; holds its type.
    NotUrl { item_type: String },
    /// The item's content is not an `http(s)` URL.
    NotHttpUrl,
    /// The browser name is ambiguous.
    Ambiguous { input: String, matches: Vec<String> },
    /// No private-mode flag is known for the browser.
    UnknownPrivateFlag { browser: String },
}

/// A plan or an error, by the characters of its strings.
pub enum WebPlanView {
    OpenWith(Seq<char>, Seq<char>),
    OpenPrivateWith(Seq<char>, Seq<char>, Seq<char>),
    OpenDefault(Seq<char>),
    OpenPrivateDiscover(Seq<char>),
    NotUrl(Seq<char>),
    NotHttpUrl,
    Ambiguous(Seq<char>, Seq<Seq<char>>),
    UnknownPrivateFlag(Seq<char>),
}

/// The view of a planning result.
pub open spec fn web_result_view(r: Result<WebAction, WebError>) -> WebPlanView {
    match r {
        Ok(WebAction::OpenWith { browser, url }) => WebPlanView::OpenWith(browser@, url@),
        Ok(WebAction::OpenPrivateWith { browser, flag, url }) => WebPlanView::OpenPrivateWith(
            browser@,
            flag@,
            url@,
        ),
        Ok(WebAction::OpenDefault { url }) => WebPlanView::OpenDefault(url@),
        Ok(WebAction::OpenPrivateDiscover { url }) => WebPlanView::OpenPrivateDiscover(url@),
        Err(WebError::NotUrl { item_type }) => WebPlanView::NotUrl(item_type@),
        Err(WebError::NotHttpUrl) => WebPlanView::NotHttpUrl,
        Err(WebError::Ambiguous { input, matches }) => WebPlanView::Ambiguous(
            input@,
            matches@.map_values(|s: String| s@),
        ),
        Err(WebError::UnknownPrivateFlag { browser }) => WebPlanView::UnknownPrivateFlag(browser@),
    }
}

/// The first present of the given browser choices.
pub open spec fn first_some(
    a: Option<Seq<char>>,
    b: Option<Seq<char>>,
    c: Option<Seq<char>>,
) -> Option<Seq<char>> {
    if a is Some {
        a
    } else if b is Some {
        b
    } else {
        c
    }
}

/// The characters of an optional owned string.
pub open spec fn opt_string(o: Option<String>) -> Option<Seq<char>> {
    match o {
        Some(s) => Some(s@),
        None => None,
    }
}

/// How `web` opens an item: a URL item only, with an `http(s)` URL (its
/// trimmed content); private mode when asked or stored with the item; the
/// browser from the command line, else stored with the item, else from the
/// configuration, resolved by name; private mode needs the browser's flag.
pub open spec fn web_plan_spec(
    item: Item,
    private: bool,
    cli_browser: Option<Seq<char>>,
    cfg_browser: Option<Seq<char>>,
    cfg_flags: Seq<(Seq<char>, Seq<char>)>,
) -> WebPlanView {
    let url = trim_ws(item.content@);
    let private = private || item.private == Some(true);
    if item.item_type@ != "url"@ {
        WebPlanView::NotUrl(item.item_type@)
    } else if !is_http_url(url) {
        WebPlanView::NotHttpUrl
    } else {
        match first_some(cli_browser, opt_string(item.browser), cfg_browser) {
            None => if private {
                WebPlanView::OpenPrivateDiscover(url)
            } else {
                WebPlanView::OpenDefault(url)
            },
            Some(name) => match resolve_spec(name) {
                Err(m) => WebPlanView::Ambiguous(name, m),
                Ok(b) => if !private {
                    WebPlanView::OpenWith(b, url)
                } else {
                    match private_flag_spec(b, cfg_flags) {
                        Some(f) => WebPlanView::OpenPrivateWith(b, f, url),
                        None => WebPlanView::UnknownPrivateFlag(b),
                    }
                },
            },
        }
    }
}

/// Decides how to open the URL item `item`.
pub fn plan_web(
    item: &Item,
    private: bool,
    cli_browser: Option<&str>,
    cfg_browser: Option<&str>,
    cfg_flags: &Vec<(String, String)>,
) -> (r: Result<WebAction, WebError>)
    ensures
        web_result_view(r) == web_plan_spec(
            *item,
            private,
            opt_chars(cli_browser),
            opt_chars(cfg_browser),
            pairs_view(cfg_flags@),
        ),
{
    if !str_eq(item.item_type.as_str(), "url") {
        return Err(WebError::NotUrl { item_type: item.item_type.clone() });
    }
    let content = chars_of(item.content.as_str());
    let url_chars = trim_chars(&content);
    let http = chars_of("http://");
    let https = chars_of("https://");
    if !(starts_with_ascii_ci_exec(&url_chars, &http) || starts_with_ascii_ci_exec(
        &url_chars,
        &https,
    )) {
        return Err(WebError::NotHttpUrl);
    }
    let url = string_from_chars(url_chars);
    let private = private || match item.private {
        Some(p) => p,
        None => false,
    };
    let chosen: Option<&str> = match cli_browser {
        Some(b) => Some(b),
        None => match &item.browser {
            Some(b) => Some(b.as_str()),
            None => cfg_browser,
        },
    };
    match chosen {
        None => {
            if private {
                Ok(WebAction::OpenPrivateDiscover { url })
            } else {
                Ok(WebAction::OpenDefault { url })
            }
        },
        Some(name) => match resolve_browser(name) {
            Err(BrowserError::Ambiguous { input, matches }) => Err(
                WebError::Ambiguous { input, matches },
            ),
            Ok(b) => {
                if !private {
                    Ok(WebAction::OpenWith { browser: b, url })
                } else {
                    match private_flag_for(b.as_str(), cfg_flags) {
                        Some(flag) => Ok(WebAction::OpenPrivateWith { browser: b, flag, url }),
                        None => Err(WebError::UnknownPrivateFlag { browser: b }),
                    }
                }
            },
        },
    }
}

/// Which browser `web` opens a URL item with: a browser given on the
/// command line wins; without one, the browser stored with the item wins over
/// the configured default, which then makes no difference. Outside private
/// mode the item opens with the resolution of the chosen name (or the
/// ambiguity is reported); with no browser anywhere, the default browser
/// opens it.
pub proof fn web_browser_precedence(
    item: Item,
    private: bool,
    cli_browser: Option<Seq<char>>,
    cfg_a: Option<Seq<char>>,
    cfg_b: Option<Seq<char>>,
    cfg_flags: Seq<(Seq<char>, Seq<char>)>,
)
    requires
        item.item_type@ == "url"@,
        is_http_url(trim_ws(item.content@)),
    ensures
        cli_browser is Some || item.browser is Some ==> web_plan_spec(
            item,
            private,
            cli_browser,
            cfg_a,
            cfg_flags,
        ) == web_plan_spec(item, private, cli_browser, cfg_b, cfg_flags),
        !private && item.private != Some(true) ==> {
            let chosen = if cli_browser is Some {
                cli_browser
            } else if item.browser is Some {
                Some(item.browser->0@)
            } else {
                cfg_a
            };
            web_plan_spec(item, private, cli_browser, cfg_a, cfg_flags) == match chosen {
                None => WebPlanView::OpenDefault(trim_ws(item.content@)),
                Some(name) => match resolve_spec(name) {
                    Ok(b) => WebPlanView::OpenWith(b, trim_ws(item.content@)),
                    Err(m) => WebPlanView::Ambiguous(name, m),
                },
            }
        },
{
}

/// What launching a browser process came to.
#[derive(Debug)]
pub enum SpawnOutcome {
    /// The process started.
    Spawned,
    /// No such program.
    NotFound,
    /// Another launch error.
    Failed,
}

/// The next move while trying the known browsers in private mode.
#[derive(Debug)]
pub enum DiscoverStep {
    /// The browser at this index opened the URL.
    Opened(usize),
    /// Try the browser at this index next.
    Try(usize),
    /// Give up with the launch error.
    Fail,
    /// None of the known browsers is installed.
    NoneFound,
}

/// After trying the browser at index `i` of `private_flags()`, what to do next:
/// stop on success or on a real error, move on when it is not installed.
pub fn discover_step(i: usize, outcome: SpawnOutcome) -> (r: DiscoverStep)
    requires
        i < private_flag_table().len(),
    ensures
        outcome is Spawned ==> r == DiscoverStep::Opened(i),
        outcome is Failed ==> r is Fail,
        outcome is NotFound && i + 1 < private_flag_table().len() ==> r == DiscoverStep::Try((i + 1) as usize),
        outcome is NotFound && i + 1 == private_flag_table().len() ==> r is NoneFound,
{
    match outcome {
        SpawnOutcome::Spawned => DiscoverStep::Opened(i),
        SpawnOutcome::Failed => DiscoverStep::Fail,
        SpawnOutcome::NotFound => {
            if i + 1 < 7 {
                DiscoverStep::Try(i + 1)
            } else {
                DiscoverStep::NoneFound
            }
        },
    }
}

/// How a failed browser launch is reported.
#[derive(Debug)]
pub enum LaunchError {
    /// The browser program is not installed; holds its name.
    BrowserNotFound(String),
    /// Any other launch error, reported as is.
    Io,
}

/// The error for a failed launch of `browser`: "not found" when the program is
/// missing, otherwise the launch error itself.
pub fn browser_err(browser: &str, not_found: bool) -> (r: LaunchError)
    ensures
        not_found ==> (r matches LaunchError::BrowserNotFound(b) && b@ == browser@),
        !not_found ==> r is Io,
{
    if not_found {
        LaunchError::BrowserNotFound(browser.to_owned())
    } else {
        LaunchError::Io
    }
}

/// Why browser settings could not be changed.
#[derive(Debug)]
pub enum BrowserArgError {
    /// `--clear` was given together with a browser name.
    ClearWithName,
    /// Nothing to set: no name, `--clear`, `--private` or `--no-private`.
    NothingToSet,
    /// The item is not of type `url`; holds its type.
    NotUrl { item_type: String },
}

/// The stored preferences to write: `browser` is `Some(value)` when the stored
/// browser changes (`Some(None)` clears it); `private` likewise for the
/// always-private flag, which is stored as `Some(true)` or cleared.
#[derive(Debug)]
pub struct BrowserUpdate {
    pub browser: Option<Option<String>>,
    pub private: Option<Option<bool>>,
}

/// The browser part of an update.
pub open spec fn update_browser_view(u: BrowserUpdate) -> Option<Option<Seq<char>>> {
    match u.browser {
        Some(b) => Some(opt_string(b)),
        None => None,
    }
}

/// The stored private flag for `--private` / `--no-private`.
pub open spec fn private_setting(p: Option<bool>) -> Option<Option<bool>> {
    match p {
        Some(true) => Some(Some(true)),
        Some(false) => Some(None),
        None => None,
    }
}

/// Checks the options of `browser` and turns them into the update to store.
pub fn plan_browser_update(browser: Option<&str>, clear: bool, private: Option<bool>) -> (r: Result<
    BrowserUpdate,
    BrowserArgError,
>)
    ensures
        browser is Some && clear ==> r matches Err(BrowserArgError::ClearWithName),
        browser is None && !clear && private is None ==> r matches Err(BrowserArgError::NothingToSet),
        !(browser is Some && clear) && !(browser is None && !clear && private is None) ==> (r matches Ok(u)
            && update_browser_view(u) == (if browser is Some || clear {
            Some(opt_chars(browser))
        } else {
            None
        }) && u.private == private_setting(private)),
{
    if browser.is_some() && clear {
        return Err(BrowserArgError::ClearWithName);
    }
    if browser.is_none() && !clear && private.is_none() {
        return Err(BrowserArgError::NothingToSet);
    }
    let b = if browser.is_some() || clear {
        match browser {
            Some(x) => Some(Some(x.to_owned())),
            None => Some(None),
        }
    } else {
        None
    };
    let p = match private {
        Some(true) => Some(Some(true)),
        Some(false) => Some(None),
        None => None,
    };
    Ok(BrowserUpdate { browser: b, private: p })
}

/// The update for one item: the options must make sense and the item must be a URL.
pub fn plan_item_browser_update(
    item: &Item,
    browser: Option<&str>,
    clear: bool,
    private: Option<bool>,
) -> (r: Result<BrowserUpdate, BrowserArgError>)
    ensures
        browser is Some && clear ==> r matches Err(BrowserArgError::ClearWithName),
        browser is None && !clear && private is None ==> r matches Err(BrowserArgError::NothingToSet),
        !(browser is Some && clear) && !(browser is None && !clear && private is None)
            && item.item_type@ != "url"@ ==> (r matches Err(BrowserArgError::NotUrl { item_type })
            && item_type@ == item.item_type@),
        !(browser is Some && clear) && !(browser is None && !clear && private is None)
            && item.item_type@ == "url"@ ==> (r matches Ok(u) && update_browser_view(u) == (if browser is Some
            || clear {
            Some(opt_chars(browser))
        } else {
            None
        }) && u.private == private_setting(private)),
{
    let u = plan_browser_update(browser, clear, private)?;
    if !str_eq(item.item_type.as_str(), "url") {
        return Err(BrowserArgError::NotUrl { item_type: item.item_type.clone() });
    }
    Ok(u)
}

/// The short names of the URL items among `items`, in order.
pub open spec fn url_names(items: Seq<Item>) -> Seq<Seq<char>>
    decreases items.len(),
{
    if items.len() == 0 {
        Seq::empty()
    } else {
        let prev = url_names(items.drop_last());
        if items.last().item_type@ == "url"@ {
            prev.push(items.last().shortname@)
        } else {
            prev
        }
    }
}

/// The short names of the URL items among `items`, in order.
pub fn url_shortnames(items: &Vec<Item>) -> (r: Vec<String>)
    ensures
        r@.map_values(|s: String| s@) == url_names(items@),
{
    let mut r: Vec<String> = Vec::new();
    let mut i: usize = 0;
    assert(items@.take(0) =~= Seq::<Item>::empty());
    while i < items.len()
        invariant
            i <= items@.len(),
            r@.map_values(|s: String| s@) == url_names(items@.take(i as int)),
        decreases items@.len() - i,
    {
        let ghost old_r = r@;
        assert(items@.take(i as int + 1).drop_last() =~= items@.take(i as int));
        if str_eq(items[i].item_type.as_str(), "url") {
            r.push(items[i].shortname.clone());
            assert(r@.map_values(|s: String| s@) =~= old_r.map_values(|s: String| s@).push(items@[i as int].shortname@));
        }
        i = i + 1;
    }
    assert(items@.take(items@.len() as int) =~= items@);
    r
}

/// What `browser` reports for one item once the update is stored.
pub open spec fn update_messages_spec(shortname: Seq<char>, u: BrowserUpdate) -> Seq<Seq<char>> {
    (match update_browser_view(u) {
        Some(None) => seq!["Cleared browser preference for '"@ + shortname + "'."@],
        Some(Some(b)) => seq!["Set browser for '"@ + shortname + "' to '"@ + b + "'."@],
        None => Seq::empty(),
    }) + (match u.private {
        Some(Some(_)) => seq!["Set '"@ + shortname + "' to always open in private mode."@],
        Some(None) => seq!["Cleared private-mode preference for '"@ + shortname + "'."@],
        None => Seq::empty(),
    })
}

fn cat3(a: &str, b: &str, c: &str) -> (r: String)
    ensures
        r@ == a@ + b@ + c@,
{
    let mut out = chars_of(a);
    crate::text::append_chars(&mut out, &chars_of(b));
    crate::text::append_chars(&mut out, &chars_of(c));
    string_from_chars(out)
}

fn cat5(a: &str, b: &str, c: &str, d: &str, e: &str) -> (r: String)
    ensures
        r@ == a@ + b@ + c@ + d@ + e@,
{
    let mut out = chars_of(a);
    crate::text::append_chars(&mut out, &chars_of(b));
    crate::text::append_chars(&mut out, &chars_of(c));
    crate::text::append_chars(&mut out, &chars_of(d));
    crate::text::append_chars(&mut out, &chars_of(e));
    string_from_chars(out)
}

/// The lines `browser` prints for one item once `u` is stored.
pub fn update_messages(shortname: &str, u: &BrowserUpdate) -> (r: Vec<String>)
    ensures
        strings_view(r@) == update_messages_spec(shortname@, *u),
{
    let mut out: Vec<String> = Vec::new();
    match &u.browser {
        Some(None) => {
            out.push(cat3("Cleared browser preference for '", shortname, "'."));
        },
        Some(Some(b)) => {
            out.push(cat5("Set browser for '", shortname, "' to '", b.as_str(), "'."));
        },
        None => {},
    }
    match u.private {
        Some(Some(_)) => {
            out.push(cat3("Set '", shortname, "' to always open in private mode."));
        },
        Some(None) => {
            out.push(cat3("Cleared private-mode preference for '", shortname, "'."));
        },
        None => {},
    }
    assert(strings_view(out@) =~= update_messages_spec(shortname@, *u));
    out
}

/// What `browser --all` reports once the update is stored on `count` URL
/// items.
pub open spec fn update_all_messages_spec(count: nat, u: BrowserUpdate) -> Seq<Seq<char>> {
    (match update_browser_view(u) {
        Some(None) => seq!["Cleared browser preference for "@ + decimal(count) + " URL item(s)."@],
        Some(Some(b)) => seq!["Set browser to '"@ + b + "' for "@ + decimal(count) + " URL item(s)."@],
        None => Seq::empty(),
    }) + (match u.private {
        Some(Some(_)) => seq!["Set "@ + decimal(count) + " URL item(s) to always open in private mode."@],
        Some(None) => seq!["Cleared private-mode preference for "@ + decimal(count) + " URL item(s)."@],
        None => Seq::empty(),
    })
}

/// The lines `browser --all` prints once `u` is stored on `count` URL items.
pub fn update_all_messages(count: usize, u: &BrowserUpdate) -> (r: Vec<String>)
    ensures
        strings_view(r@) == update_all_messages_spec(count as nat, *u),
{
    let n = string_from_chars(decimal_chars(count as u128));
    let mut out: Vec<String> = Vec::new();
    match &u.browser {
        Some(None) => {
            out.push(cat3("Cleared browser preference for ", n.as_str(), " URL item(s)."));
        },
        Some(Some(b)) => {
            out.push(cat5("Set browser to '", b.as_str(), "' for ", n.as_str(), " URL item(s)."));
        },
        None => {},
    }
    match u.private {
        Some(Some(_)) => {
            out.push(cat3("Set ", n.as_str(), " URL item(s) to always open in private mode."));
        },
        Some(None) => {
            out.push(cat3("Cleared private-mode preference for ", n.as_str(), " URL item(s)."));
        },
        None => {},
    }
    assert(strings_view(out@) =~= update_all_messages_spec(count as nat, *u));
    out
}

/// How an ambiguous browser name is reported: the name and the known
/// browsers it is a prefix of.
pub open spec fn ambiguous_message_spec(input: Seq<char>, matches: Seq<Seq<char>>) -> Seq<char> {
    "ambiguous browser '"@ + input + "': matches "@ + crate::listing::join_with(matches, ", "@)
}

/// Reports an ambiguous browser name.
pub fn ambiguous_message(input: &str, matches: &Vec<String>) -> (r: String)
    ensures
        r@ == ambiguous_message_spec(input@, strings_view(matches@)),
{
    let mut l = chars_of("ambiguous browser '");
    crate::text::append_chars(&mut l, &chars_of(input));
    crate::text::append_chars(&mut l, &chars_of("': matches "));
    crate::listing::push_joined(&mut l, matches, ", ");
    string_from_chars(l)
}

} // verus!
