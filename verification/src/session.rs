//! The session file: an expiry time and the derived key, so that the master
//! password is asked once per session.

use vstd::prelude::*;

use crate::encoding::{b64_decode, b64_encode, base64_decoded, base64_encoded, is_base64_char};
use crate::text::{
    append_chars, chars_of, decimal, decimal_chars, digit_char, is_ws, slice_chars,
    string_from_chars, trim_chars, trim_end_ws, trim_start_ws, trim_ws,
};

verus! {

/// Why a session file gives no key.
#[derive(Clone, Copy, Debug, PartialEq, Eq, Structural)]
pub enum SessionError {
    /// The file is not an expiry line followed by a Base64 key of 32 bytes.
    Corrupt,
    /// The session's expiry time has passed.
    Expired,
}

/// Where the first line of `s` ends: the index of its first `'\n'`, or its
/// length when it has none.
pub open spec fn line_end(s: Seq<char>) -> nat
    decreases s.len(),
{
    if s.len() == 0 {
        0
    } else if s[0] == '\n' {
        0
    } else {
        1 + line_end(s.drop_first())
    }
}

/// `l` without one trailing `'\r'`.
pub open spec fn strip_cr(l: Seq<char>) -> Seq<char> {
    if l.len() > 0 && l.last() == '\r' {
        l.drop_last()
    } else {
        l
    }
}

/// The first line of a non-empty `s`, as `str::lines` yields it: a line ended
/// by `'\n'` loses that and one `'\r'` before it.
pub open spec fn first_line(s: Seq<char>) -> Seq<char> {
    if line_end(s) < s.len() {
        strip_cr(s.take(line_end(s) as int))
    } else {
        s
    }
}

/// The first two lines of `s`, where it has two.
pub open spec fn first_two_lines(s: Seq<char>) -> Option<(Seq<char>, Seq<char>)> {
    let e = line_end(s);
    if e + 1 >= s.len() {
        None
    } else {
        Some((first_line(s), first_line(s.skip(e + 1 as int))))
    }
}

/// A decimal digit.
pub open spec fn is_digit(c: char) -> bool {
    '0' <= c && c <= '9'
}

/// The number that the digits `s` write in decimal.
pub open spec fn digits_value(s: Seq<char>) -> nat
    decreases s.len(),
{
    if s.len() == 0 {
        0
    } else {
        digits_value(s.drop_last()) * 10 + ((s.last() as int - 48) as nat)
    }
}

/// Only decimal digits.
pub open spec fn all_digits(s: Seq<char>) -> bool {
    forall|i: int| 0 <= i < s.len() ==> is_digit(#[trigger] s[i])
}

/// `s` without one leading `+`.
pub open spec fn unsigned_digits(s: Seq<char>) -> Seq<char> {
    if s.len() > 0 && s[0] == '+' {
        s.drop_first()
    } else {
        s
    }
}

/// What `str::parse::<u64>` gives: an optional `+` and at least one decimal
/// digit, with a value that fits.
pub open spec fn parse_u64_spec(s: Seq<char>) -> Option<u64> {
    let t = unsigned_digits(s);
    if t.len() > 0 && all_digits(t) && digits_value(t) <= u64::MAX {
        Some(digits_value(t) as u64)
    } else {
        None
    }
}

/// What a session file whose text (trimmed) is `s` gives at time `now`.
pub open spec fn parse_session_spec(s: Seq<char>, now: u64) -> Result<Seq<u8>, SessionError> {
    match first_two_lines(s) {
        None => Err(SessionError::Corrupt),
        Some((l1, l2)) => match parse_u64_spec(l1) {
            None => Err(SessionError::Corrupt),
            Some(expiry) => if now > expiry {
                Err(SessionError::Expired)
            } else {
                match base64_decoded(l2) {
                    Some(key) => if key.len() == 32 {
                        Ok(key)
                    } else {
                        Err(SessionError::Corrupt)
                    },
                    None => Err(SessionError::Corrupt),
                }
            },
        },
    }
}

proof fn lemma_line_end(s: Seq<char>, i: int)
    requires
        0 <= i <= s.len(),
        forall|j: int| 0 <= j < i ==> s[j] != '\n',
        i == s.len() || s[i] == '\n',
    ensures
        line_end(s) == i,
    decreases i,
{
    if i > 0 {
        let t = s.drop_first();
        assert forall|j: int| 0 <= j < i - 1 implies t[j] != '\n' by {
            assert(t[j] == s[j + 1]);
        }
        lemma_line_end(t, i - 1);
    }
}

proof fn lemma_digits_prefix_le(s: Seq<char>, k: int)
    requires
        0 <= k <= s.len(),
        all_digits(s),
    ensures
        digits_value(s.take(k)) <= digits_value(s),
    decreases s.len() - k,
{
    if k < s.len() {
        lemma_digits_prefix_le(s, k + 1);
        let p = s.take(k + 1);
        assert(p.drop_last() =~= s.take(k));
        assert(is_digit(s[k]));
    } else {
        assert(s.take(k) =~= s);
    }
}

/// Finds where the first line of `v[start..]` ends (as an index into `v`).
fn line_end_from(v: &Vec<char>, start: usize) -> (r: usize)
    requires
        start <= v@.len(),
    ensures
        r == start + line_end(v@.skip(start as int)),
        r <= v@.len(),
{
    let mut i = start;
    while i < v.len() && v[i] != '\n'
        invariant
            start <= i <= v@.len(),
            forall|j: int| start <= j < i ==> v@[j] != '\n',
        decreases v@.len() - i,
    {
        i = i + 1;
    }
    proof {
        let t = v@.skip(start as int);
        assert forall|j: int| 0 <= j < i - start implies t[j] != '\n' by {
            assert(t[j] == v@[start + j]);
        }
        lemma_line_end(t, i - start);
    }
    i
}

/// The text of the line of `v` from `start` to `end` (its `'\n'` or the end
/// of `v`), as `str::lines` yields it.
fn line_text(v: &Vec<char>, start: usize, end: usize) -> (r: Vec<char>)
    requires
        start <= end <= v@.len(),
        end == start + line_end(v@.skip(start as int)),
        start < v@.len(),
    ensures
        r@ == first_line(v@.skip(start as int)),
{
    let ghost t = v@.skip(start as int);
    if end < v.len() && end > start && v[end - 1] == '\r' {
        assert(t.take(end - start) =~= v@.subrange(start as int, end as int));
        let r = slice_chars(v, start, end - 1);
        assert(r@ =~= strip_cr(t.take(end - start)));
        r
    } else if end < v.len() {
        assert(t.take(end - start) =~= v@.subrange(start as int, end as int));
        slice_chars(v, start, end)
    } else {
        assert(t =~= v@.subrange(start as int, end as int));
        slice_chars(v, start, end)
    }
}

/// Parses a line as `str::parse::<u64>` does.
pub fn parse_u64(v: &Vec<char>) -> (r: Option<u64>)
    ensures
        r == parse_u64_spec(v@),
{
    let start: usize = if v.len() > 0 && v[0] == '+' {
        1
    } else {
        0
    };
    let ghost t = v@.skip(start as int);
    assert(t =~= unsigned_digits(v@));
    if start == v.len() {
        return None;
    }
    let mut i = start;
    while i < v.len()
        invariant
            start <= i <= v@.len(),
            t == v@.skip(start as int),
            t == unsigned_digits(v@),
            forall|j: int| 0 <= j < i - start ==> is_digit(#[trigger] t[j]),
        decreases v@.len() - i,
    {
        let c = v[i];
        if !('0' <= c && c <= '9') {
            assert(!is_digit(t[i - start]));
            return None;
        }
        i = i + 1;
    }
    assert(all_digits(t));
    let mut acc: u64 = 0;
    let mut i = start;
    assert(t.take(0) =~= Seq::<char>::empty());
    while i < v.len()
        invariant
            start <= i <= v@.len(),
            t == v@.skip(start as int),
            t == unsigned_digits(v@),
            all_digits(t),
            acc == digits_value(t.take(i - start)),
        decreases v@.len() - i,
    {
        let c = v[i];
        assert(is_digit(t[i - start]));
        let d: u64 = (c as u32 - 48) as u64;
        let ghost p = t.take(i - start + 1);
        assert(p.drop_last() =~= t.take(i - start));
        assert(digits_value(p) == acc * 10 + d);
        proof {
            lemma_digits_prefix_le(t, i - start + 1);
        }
        match acc.checked_mul(10) {
            None => {
                return None;
            },
            Some(m) => match m.checked_add(d) {
                None => {
                    return None;
                },
                Some(a) => {
                    acc = a;
                },
            },
        }
        i = i + 1;
    }
    assert(t.take(i - start) =~= t);
    Some(acc)
}

/// Reads the session from the (trimmed) text of a session file at time `now`.
pub fn parse_session(content: &str, now: u64) -> (r: Result<Vec<u8>, SessionError>)
    ensures
        match (r, parse_session_spec(content@, now)) {
            (Ok(k), Ok(s)) => k@ == s,
            (Err(e), Err(s)) => e == s,
            _ => false,
        },
{
    let v = chars_of(content);
    let e1 = line_end_from(&v, 0);
    assert(v@.skip(0) =~= v@);
    if e1 >= v.len() || e1 + 1 == v.len() {
        return Err(SessionError::Corrupt);
    }
    let l1 = line_text(&v, 0, e1);
    let e2 = line_end_from(&v, e1 + 1);
    let l2 = line_text(&v, e1 + 1, e2);
    let expiry = match parse_u64(&l1) {
        Some(x) => x,
        None => return Err(SessionError::Corrupt),
    };
    if now > expiry {
        return Err(SessionError::Expired);
    }
    let key_b64 = string_from_chars(l2);
    match b64_decode(key_b64.as_str()) {
        Some(key) => if key.len() == 32 {
            Ok(key)
        } else {
            Err(SessionError::Corrupt)
        },
        None => Err(SessionError::Corrupt),
    }
}

/// Reads the session from a session file's text at time `now` (the text is
/// trimmed first).
pub fn load_key(content: &str, now: u64) -> (r: Result<Vec<u8>, SessionError>)
    ensures
        match (r, parse_session_spec(trim_ws(content@), now)) {
            (Ok(k), Ok(s)) => k@ == s,
            (Err(e), Err(s)) => e == s,
            _ => false,
        },
{
    let t = trim_chars(&chars_of(content));
    let s = string_from_chars(t);
    parse_session(s.as_str(), now)
}

/// When a session started at `now` with a timeout of `timeout_minutes`
/// expires; a timeout of 0 never expires.
pub open spec fn expiry_spec(timeout_minutes: u64, now: u64) -> int {
    if timeout_minutes == 0 {
        u64::MAX as int
    } else {
        now + timeout_minutes * 60
    }
}

/// What the session file holds: the expiry time in decimal, then the key
/// in Base64, on two lines.
pub open spec fn session_content_spec(key: Seq<u8>, timeout_minutes: u64, now: u64) -> Seq<char> {
    decimal(expiry_spec(timeout_minutes, now) as nat) + seq!['\n'] + base64_encoded(key)
}

/// The text of the session file for `key`, started at `now`. Read back at
/// any time up to its expiry it gives `key`; after that, it is expired.
pub fn session_content(key: &[u8; 32], timeout_minutes: u64, now: u64) -> (r: String)
    requires
        expiry_spec(timeout_minutes, now) <= u64::MAX,
    ensures
        r@ == session_content_spec(key@, timeout_minutes, now),
        forall|later: u64|
            #[trigger] parse_session_spec(trim_ws(r@), later) == if later <= expiry_spec(
                timeout_minutes,
                now,
            ) {
                Ok::<Seq<u8>, SessionError>(key@)
            } else {
                Err::<Seq<u8>, SessionError>(SessionError::Expired)
            },
{
    let expiry: u64 = if timeout_minutes == 0 {
        u64::MAX
    } else {
        now + timeout_minutes * 60
    };
    let mut out = decimal_chars(expiry as u128);
    out.push('\n');
    let k = b64_encode(key.as_slice());
    append_chars(&mut out, &chars_of(k.as_str()));
    let r = string_from_chars(out);
    proof {
        assert(r@ == session_content_spec(key@, timeout_minutes, now));
        assert forall|later: u64| #[trigger]
            parse_session_spec(trim_ws(r@), later) == if later <= expiry_spec(timeout_minutes, now) {
                Ok::<Seq<u8>, SessionError>(key@)
            } else {
                Err::<Seq<u8>, SessionError>(SessionError::Expired)
            } by {
            lemma_session_roundtrip(key@, timeout_minutes, now, later);
        }
    }
    r
}

proof fn lemma_decimal_digits(n: nat)
    ensures
        all_digits(decimal(n)),
        digits_value(decimal(n)) == n,
        decimal(n).len() > 0,
    decreases n,
{
    if n >= 10 {
        lemma_decimal_digits(n / 10);
        let d = decimal(n / 10);
        assert(decimal(n) == d.push(digit_char(n % 10)));
        assert(decimal(n).drop_last() =~= d);
        assert(decimal(n).last() == digit_char(n % 10));
        assert(digit_char(n % 10) as int - 48 == n % 10);
        assert(digits_value(decimal(n)) == digits_value(d) * 10 + n % 10);
        assert((n / 10) * 10 + n % 10 == n) by (nonlinear_arith);
        assert forall|i: int| 0 <= i < decimal(n).len() implies is_digit(#[trigger] decimal(n)[i]) by {
            if i < d.len() {
                assert(decimal(n)[i] == d[i]);
            }
        }
        assert(digit_char(n % 10) as int - 48 == n % 10);
    } else {
        assert(digit_char(n) as int - 48 == n);
        assert(decimal(n).drop_last() =~= Seq::<char>::empty());
        assert(digits_value(decimal(n).drop_last()) == 0);
        assert(decimal(n).last() == digit_char(n));
    }
}

proof fn lemma_session_roundtrip(key: Seq<u8>, timeout_minutes: u64, started: u64, now: u64)
    requires
        key.len() == 32,
        expiry_spec(timeout_minutes, started) <= u64::MAX,
        base64_decoded(base64_encoded(key)) == Some(key),
        base64_encoded(key).len() > 0,
        forall|i: int| 0 <= i < base64_encoded(key).len() ==> is_base64_char(#[trigger] base64_encoded(key)[i]),
    ensures
        parse_session_spec(trim_ws(session_content_spec(key, timeout_minutes, started)), now)
            == if now <= expiry_spec(timeout_minutes, started) {
                Ok::<Seq<u8>, SessionError>(key)
            } else {
                Err::<Seq<u8>, SessionError>(SessionError::Expired)
            },
{
    let e = expiry_spec(timeout_minutes, started) as nat;
    let d = decimal(e);
    let b = base64_encoded(key);
    let s = session_content_spec(key, timeout_minutes, started);
    lemma_decimal_digits(e);
    assert(s =~= d + seq!['\n'] + b);
    // the text has no whitespace at either end
    assert(is_digit(d[0]));
    assert(s[0] == d[0]);
    assert(is_base64_char(b[b.len() - 1]));
    assert(s.last() == b[b.len() - 1]);
    assert(trim_end_ws(s) == s);
    assert(trim_start_ws(s) == s);
    assert(trim_ws(s) == s);
    // the first line is the expiry, the second the key
    assert forall|j: int| 0 <= j < d.len() implies s[j] != '\n' by {
        assert(s[j] == d[j]);
        assert(is_digit(d[j]));
    }
    lemma_line_end(s, d.len() as int);
    assert(s.take(d.len() as int) =~= d);
    assert(is_digit(d[d.len() - 1]));
    assert(first_line(s) == d);
    let rest = s.skip(d.len() + 1 as int);
    assert(rest =~= b);
    assert forall|j: int| 0 <= j < b.len() implies rest[j] != '\n' by {
        assert(rest[j] == b[j]);
        assert(is_base64_char(b[j]));
    }
    lemma_line_end(rest, b.len() as int);
    assert(first_line(rest) == b);
    assert(first_two_lines(s) == Some((d, b)));
    assert(parse_u64_spec(d) == Some(e as u64));
}

/// The session file that using the session at `now` leaves behind, for a
/// session saved with a timeout of `timeout_minutes`: the same key, with its
/// expiry pushed to `now` plus the timeout. `None` where the session does not
/// read back, the timeout is 0 (it never expires), or the new expiry would
/// not fit.
pub open spec fn refreshed_spec(s: Seq<char>, now: u64, timeout_minutes: u64) -> Option<Seq<char>> {
    match parse_session_spec(s, now) {
        Ok(k) => if timeout_minutes > 0 && now + timeout_minutes * 60 <= u64::MAX {
            Some(session_content_spec(k, timeout_minutes, now))
        } else {
            None
        },
        _ => None,
    }
}

/// Uses the session recorded in a session file's text at time `now`, for a
/// session saved with a timeout of `timeout_minutes`: gives its key and,
/// where the timeout is not 0, the file's new text with the expiry pushed to
/// `now` plus that timeout (each use renews the session). The new text gives
/// the same key until its new expiry.
pub fn use_session(content: &str, now: u64, timeout_minutes: u64) -> (r: Result<
    (Vec<u8>, Option<String>),
    SessionError,
>)
    ensures
        match (r, parse_session_spec(trim_ws(content@), now)) {
            (Ok((k, _)), Ok(s)) => k@ == s,
            (Err(e), Err(s)) => e == s,
            _ => false,
        },
        r matches Ok((_, c)) ==> match (c, refreshed_spec(trim_ws(content@), now, timeout_minutes)) {
            (Some(x), Some(y)) => x@ == y,
            (None, None) => true,
            _ => false,
        },
        r matches Ok((k, Some(x))) ==> forall|later: u64|
            #[trigger] parse_session_spec(trim_ws(x@), later) == if later <= now + timeout_minutes * 60 {
                Ok::<Seq<u8>, SessionError>(k@)
            } else {
                Err::<Seq<u8>, SessionError>(SessionError::Expired)
            },
{
    let t = trim_chars(&chars_of(content));
    let s = string_from_chars(t);
    let key = match parse_session(s.as_str(), now) {
        Ok(k) => k,
        Err(e) => return Err(e),
    };
    let refreshed = if timeout_minutes > 0 && timeout_minutes <= (u64::MAX - now) / 60 {
        let mut arr = [0u8; 32];
        let mut i: usize = 0;
        while i < 32
            invariant
                key@.len() == 32,
                i <= 32,
                forall|j: int| 0 <= j < i ==> arr@[j] == key@[j],
            decreases 32 - i,
        {
            arr[i] = key[i];
            i = i + 1;
        }
        assert(arr@ =~= key@);
        assert(timeout_minutes * 60 <= u64::MAX - now) by (nonlinear_arith)
            requires
                timeout_minutes <= (u64::MAX - now) / 60,
        ;
        Some(session_content(&arr, timeout_minutes, now))
    } else {
        proof {
            if timeout_minutes > 0 {
                assert(now + timeout_minutes * 60 > u64::MAX) by (nonlinear_arith)
                    requires
                        timeout_minutes > (u64::MAX - now) / 60,
                ;
            }
        }
        None
    };
    Ok((key, refreshed))
}

/// The record of a session's timeout, kept beside the session file so that
/// each use can renew the session: the minutes in decimal.
pub fn timeout_record(timeout_minutes: u64) -> (r: String)
    ensures
        r@ == decimal(timeout_minutes as nat),
{
    string_from_chars(decimal_chars(timeout_minutes as u128))
}

/// Reads a timeout record (its text trimmed): the minutes, or `None` where
/// it is not a number.
pub fn read_timeout_record(text: &str) -> (r: Option<u64>)
    ensures
        r == parse_u64_spec(trim_ws(text@)),
{
    let t = trim_chars(&chars_of(text));
    parse_u64(&t)
}

/// A timeout record reads back the timeout it was written with.
pub proof fn timeout_record_roundtrip(timeout_minutes: u64)
    ensures
        parse_u64_spec(trim_ws(decimal(timeout_minutes as nat))) == Some(timeout_minutes),
{
    let d = decimal(timeout_minutes as nat);
    lemma_decimal_digits(timeout_minutes as nat);
    assert(is_digit(d[0]));
    assert(is_digit(d[d.len() - 1]));
    assert(trim_end_ws(d) == d);
    assert(trim_start_ws(d) == d);
    assert(trim_ws(d) == d);
}

} // verus!
