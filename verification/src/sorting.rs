//! Sorting strings in `String`'s order (by code point, lexicographically).

use vstd::prelude::*;
use vstd::relations::total_ordering;

use crate::tagging::strings_view;
use crate::text::chars_of;

verus! {

/// `a` sorts before or equal to `b`: lexicographic order by code point, which
/// is the order of `String` (byte-wise on UTF-8).
pub open spec fn chars_le(a: Seq<char>, b: Seq<char>) -> bool
    decreases a.len(),
{
    if a.len() == 0 {
        true
    } else if b.len() == 0 {
        false
    } else if a[0] != b[0] {
        (a[0] as int) < (b[0] as int)
    } else {
        chars_le(a.drop_first(), b.drop_first())
    }
}

proof fn lemma_le_total(a: Seq<char>, b: Seq<char>)
    ensures
        chars_le(a, b) || chars_le(b, a),
    decreases a.len(),
{
    if a.len() > 0 && b.len() > 0 && a[0] == b[0] {
        lemma_le_total(a.drop_first(), b.drop_first());
    }
}

proof fn lemma_le_antisym(a: Seq<char>, b: Seq<char>)
    requires
        chars_le(a, b),
        chars_le(b, a),
    ensures
        a == b,
    decreases a.len(),
{
    if a.len() > 0 && b.len() > 0 {
        if a[0] == b[0] {
            lemma_le_antisym(a.drop_first(), b.drop_first());
            assert(a =~= seq![a[0]] + a.drop_first());
            assert(b =~= seq![b[0]] + b.drop_first());
        }
    } else {
        assert(a.len() == 0 && b.len() == 0);
        assert(a =~= b);
    }
}

proof fn lemma_le_trans(a: Seq<char>, b: Seq<char>, c: Seq<char>)
    requires
        chars_le(a, b),
        chars_le(b, c),
    ensures
        chars_le(a, c),
    decreases a.len(),
{
    if a.len() > 0 && b.len() > 0 && c.len() > 0 {
        if a[0] == b[0] && b[0] == c[0] {
            lemma_le_trans(a.drop_first(), b.drop_first(), c.drop_first());
        }
    }
}

proof fn lemma_le_refl(a: Seq<char>)
    ensures
        chars_le(a, a),
    decreases a.len(),
{
    if a.len() > 0 {
        lemma_le_refl(a.drop_first());
    }
}

/// `chars_le` is a total order.
pub proof fn chars_le_total_ordering()
    ensures
        total_ordering(|a: Seq<char>, b: Seq<char>| chars_le(a, b)),
{
    assert forall|a: Seq<char>| #[trigger] chars_le(a, a) by {
        lemma_le_refl(a);
    }
    assert forall|a: Seq<char>, b: Seq<char>| #[trigger]
        chars_le(a, b) && #[trigger] chars_le(b, a) implies a == b by {
        lemma_le_antisym(a, b);
    }
    assert forall|a: Seq<char>, b: Seq<char>, c: Seq<char>| #[trigger]
        chars_le(a, b) && #[trigger] chars_le(b, c) implies chars_le(a, c) by {
        lemma_le_trans(a, b, c);
    }
    assert forall|a: Seq<char>, b: Seq<char>| chars_le(a, b) || chars_le(b, a) by {
        lemma_le_total(a, b);
    }
    let leq = |a: Seq<char>, b: Seq<char>| chars_le(a, b);
    assert(vstd::relations::reflexive(leq));
    assert(vstd::relations::antisymmetric(leq));
    assert(vstd::relations::transitive(leq));
    assert(vstd::relations::strongly_connected(leq));
}

/// Whether `a` sorts before or equal to `b`.
pub fn chars_le_exec(a: &Vec<char>, b: &Vec<char>) -> (r: bool)
    ensures
        r == chars_le(a@, b@),
{
    let mut i: usize = 0;
    assert(a@.subrange(0, a@.len() as int) =~= a@);
    assert(b@.subrange(0, b@.len() as int) =~= b@);
    while i < a.len() && i < b.len() && a[i] == b[i]
        invariant
            i <= a@.len(),
            i <= b@.len(),
            chars_le(a@, b@) == chars_le(a@.subrange(i as int, a@.len() as int), b@.subrange(i as int, b@.len() as int)),
        decreases a@.len() - i,
    {
        let ghost sa = a@.subrange(i as int, a@.len() as int);
        let ghost sb = b@.subrange(i as int, b@.len() as int);
        assert(sa.drop_first() =~= a@.subrange(i as int + 1, a@.len() as int));
        assert(sb.drop_first() =~= b@.subrange(i as int + 1, b@.len() as int));
        i = i + 1;
    }
    let ghost sa = a@.subrange(i as int, a@.len() as int);
    let ghost sb = b@.subrange(i as int, b@.len() as int);
    if i == a.len() {
        true
    } else if i == b.len() {
        false
    } else {
        assert(sa[0] == a@[i as int] && sb[0] == b@[i as int]);
        a[i] < b[i]
    }
}

/// `s` with `x` inserted after every leading element that sorts before or
/// equal to it (one step of a stable insertion sort).
pub open spec fn insert_sorted(s: Seq<Seq<char>>, x: Seq<char>) -> Seq<Seq<char>>
    decreases s.len(),
{
    if s.len() == 0 {
        seq![x]
    } else if chars_le(s[0], x) {
        seq![s[0]] + insert_sorted(s.drop_first(), x)
    } else {
        seq![x] + s
    }
}

/// `v` sorted stably in `String` order.
pub open spec fn sorted_of(v: Seq<Seq<char>>) -> Seq<Seq<char>>
    decreases v.len(),
{
    if v.len() == 0 {
        Seq::empty()
    } else {
        insert_sorted(sorted_of(v.drop_last()), v.last())
    }
}

proof fn lemma_insert_at(s: Seq<Seq<char>>, x: Seq<char>, p: int)
    requires
        0 <= p <= s.len(),
        forall|k: int| 0 <= k < p ==> chars_le(#[trigger] s[k], x),
        p == s.len() || !chars_le(s[p], x),
    ensures
        insert_sorted(s, x) == s.insert(p, x),
    decreases p,
{
    if p == 0 {
        if s.len() == 0 {
            assert(s.insert(0, x) =~= seq![x]);
        } else {
            assert(s.insert(0, x) =~= seq![x] + s);
        }
    } else {
        let t = s.drop_first();
        assert(chars_le(s[0], x));
        assert forall|k: int| 0 <= k < p - 1 implies chars_le(#[trigger] t[k], x) by {
            assert(t[k] == s[k + 1]);
        }
        if p < s.len() {
            assert(t[p - 1] == s[p]);
        }
        lemma_insert_at(t, x, p - 1);
        assert(s.insert(p, x) =~= seq![s[0]] + t.insert(p - 1, x));
    }
}

/// The strings sorted in `String` order.
pub open spec fn is_sorted_strings(v: Seq<Seq<char>>) -> bool {
    forall|a: int, b: int| 0 <= a < b < v.len() ==> chars_le(#[trigger] v[a], #[trigger] v[b])
}

/// Sorts strings in `String` order (what `Vec<String>::sort` does).
pub fn sort_strings(v: Vec<String>) -> (r: Vec<String>)
    ensures
        strings_view(r@) == sorted_of(strings_view(v@)),
        is_sorted_strings(strings_view(r@)),
        strings_view(r@).to_multiset() == strings_view(v@).to_multiset(),
{
    let mut out: Vec<String> = Vec::new();
    let mut i: usize = 0;
    let ghost vv = strings_view(v@);
    assert(vv.take(0) =~= strings_view(out@));
    while i < v.len()
        invariant
            i <= v@.len(),
            vv == strings_view(v@),
            is_sorted_strings(strings_view(out@)),
            strings_view(out@) == sorted_of(vv.take(i as int)),
            strings_view(out@).to_multiset() == vv.take(i as int).to_multiset(),
        decreases v@.len() - i,
    {
        let x = v[i].clone();
        let xc = chars_of(x.as_str());
        let mut p: usize = 0;
        while p < out.len() && chars_le_exec(&chars_of(out[p].as_str()), &xc)
            invariant
                p <= out@.len(),
                xc@ == x@,
                forall|k: int| 0 <= k < p ==> chars_le(#[trigger] out@[k]@, xc@),
            decreases out@.len() - p,
        {
            p = p + 1;
        }
        let ghost ov = strings_view(out@);
        proof {
            if p < out@.len() {
                lemma_le_total(xc@, out@[p as int]@);
            }
            assert forall|k: int| 0 <= k < p implies chars_le(#[trigger] ov[k], xc@) by {
                assert(ov[k] == out@[k]@);
            }
            if p < out@.len() {
                assert(ov[p as int] == out@[p as int]@);
            }
            lemma_insert_at(ov, xc@, p as int);
            assert(vv.take(i as int + 1).drop_last() =~= vv.take(i as int));
        }
        out.insert(p, x);
        proof {
            let nv = strings_view(out@);
            assert(nv =~= ov.insert(p as int, xc@));
            assert forall|a: int, b: int| 0 <= a < b < nv.len() implies chars_le(nv[a], nv[b]) by {
                if b < p {
                } else if a < p && b == p {
                    assert(nv[a] == ov[a]);
                } else if a < p && b > p {
                    assert(nv[a] == ov[a] && nv[b] == ov[b - 1]);
                } else if a == p {
                    assert(nv[b] == ov[b - 1]);
                    if b - 1 > p {
                        assert(chars_le(ov[p as int], ov[b - 1]));
                    } else {
                        lemma_le_refl(ov[p as int]);
                    }
                    lemma_le_trans(xc@, ov[p as int], ov[b - 1]);
                } else {
                    assert(nv[a] == ov[a - 1] && nv[b] == ov[b - 1]);
                }
            }
            assert(vv[i as int] == xc@);
            assert(vv.take(i as int + 1) =~= vv.take(i as int).push(xc@));
            vstd::seq_lib::to_multiset_insert(ov, p as int, xc@);
            vstd::seq_lib::to_multiset_build(vv.take(i as int), xc@);
        }
        i = i + 1;
    }
    assert(vv.take(v@.len() as int) =~= vv);
    out
}

proof fn lemma_insert_sorted(s: Seq<Seq<char>>, x: Seq<char>)
    requires
        is_sorted_strings(s),
    ensures
        insert_sorted(s, x).len() == s.len() + 1,
        insert_sorted(s, x).to_multiset() == s.to_multiset().insert(x),
        is_sorted_strings(insert_sorted(s, x)),
        forall|k: int|
            0 <= k < insert_sorted(s, x).len() ==> #[trigger] insert_sorted(s, x)[k] == x || s.contains(
                insert_sorted(s, x)[k],
            ),
    decreases s.len(),
{
    let r = insert_sorted(s, x);
    if s.len() == 0 {
        assert(r =~= Seq::<Seq<char>>::empty().insert(0, x));
        vstd::seq_lib::to_multiset_insert(Seq::<Seq<char>>::empty(), 0, x);
        assert(s =~= Seq::<Seq<char>>::empty());
    } else {
        let rest = s.drop_first();
        assert(s =~= rest.insert(0, s[0]));
        vstd::seq_lib::to_multiset_insert(rest, 0, s[0]);
        assert forall|a: int, b: int| 0 <= a < b < rest.len() implies chars_le(
            #[trigger] rest[a],
            #[trigger] rest[b],
        ) by {
            assert(rest[a] == s[a + 1] && rest[b] == s[b + 1]);
        }
        if chars_le(s[0], x) {
            let t = insert_sorted(rest, x);
            lemma_insert_sorted(rest, x);
            assert(r =~= t.insert(0, s[0]));
            vstd::seq_lib::to_multiset_insert(t, 0, s[0]);
            assert(r.to_multiset() =~= s.to_multiset().insert(x));
            assert forall|k: int| 0 <= k < t.len() implies chars_le(s[0], #[trigger] t[k]) by {
                if t[k] != x {
                    let j = choose|j: int| 0 <= j < rest.len() && rest[j] == t[k];
                    assert(s[j + 1] == rest[j]);
                }
            }
            assert forall|a: int, b: int| 0 <= a < b < r.len() implies chars_le(#[trigger] r[a], #[trigger] r[b]) by {
                assert(r[b] == t[b - 1]);
                if a > 0 {
                    assert(r[a] == t[a - 1]);
                }
            }
            assert forall|k: int| 0 <= k < r.len() implies #[trigger] r[k] == x || s.contains(r[k]) by {
                if k == 0 {
                    assert(s[0] == r[0]);
                } else {
                    assert(r[k] == t[k - 1]);
                    if t[k - 1] != x {
                        let j = choose|j: int| 0 <= j < rest.len() && rest[j] == t[k - 1];
                        assert(s[j + 1] == rest[j]);
                    }
                }
            }
        } else {
            lemma_le_total(s[0], x);
            assert(r =~= s.insert(0, x));
            vstd::seq_lib::to_multiset_insert(s, 0, x);
            assert forall|a: int, b: int| 0 <= a < b < r.len() implies chars_le(#[trigger] r[a], #[trigger] r[b]) by {
                assert(r[b] == s[b - 1]);
                if a > 0 {
                    assert(r[a] == s[a - 1]);
                } else if b - 1 > 0 {
                    lemma_le_trans(x, s[0], s[b - 1]);
                }
            }
            assert forall|k: int| 0 <= k < r.len() implies #[trigger] r[k] == x || s.contains(r[k]) by {
                if k > 0 {
                    assert(r[k] == s[k - 1]);
                }
            }
        }
    }
}

/// Sorting puts the strings in order and keeps each of them, as many times
/// as it occurs.
pub proof fn sorted_of_sorts(v: Seq<Seq<char>>)
    ensures
        is_sorted_strings(sorted_of(v)),
        sorted_of(v).to_multiset() == v.to_multiset(),
        sorted_of(v).len() == v.len(),
    decreases v.len(),
{
    if v.len() > 0 {
        let init = v.drop_last();
        sorted_of_sorts(init);
        lemma_insert_sorted(sorted_of(init), v.last());
        assert(v =~= init.push(v.last()));
        vstd::seq_lib::to_multiset_build(init, v.last());
    } else {
        assert(sorted_of(v) =~= v);
    }
}

} // verus!
