//! Which tags to attach to or remove from an item.

use vstd::prelude::*;

use crate::text::{chars_eq, chars_of, string_from_chars, trim_chars, trim_ws};
use crate::vault::Tag;

verus! {

/// The characters of each string.
pub open spec fn strings_view(v: Seq<String>) -> Seq<Seq<char>> {
    v.map_values(|s: String| s@)
}

/// The tags of a new item: each given tag trimmed, blanks and repeats dropped,
/// in the order given.
pub open spec fn dedup_tags_spec(tags: Seq<Seq<char>>) -> Seq<Seq<char>>
    decreases tags.len(),
{
    if tags.len() == 0 {
        Seq::empty()
    } else {
        let prev = dedup_tags_spec(tags.drop_last());
        let t = trim_ws(tags.last());
        if t.len() == 0 || prev.contains(t) {
            prev
        } else {
            prev.push(t)
        }
    }
}

/// The tags to add to an item that has `existing`: each given tag trimmed,
/// dropping blanks, those already on the item and repeats.
pub open spec fn new_tags_spec(existing: Seq<Seq<char>>, tags: Seq<Seq<char>>) -> Seq<Seq<char>>
    decreases tags.len(),
{
    if tags.len() == 0 {
        Seq::empty()
    } else {
        let prev = new_tags_spec(existing, tags.drop_last());
        let t = trim_ws(tags.last());
        if t.len() == 0 || existing.contains(t) || prev.contains(t) {
            prev
        } else {
            prev.push(t)
        }
    }
}

/// Whether `s` occurs among `v`.
fn contains_chars(v: &Vec<Vec<char>>, s: &Vec<char>) -> (r: bool)
    ensures
        r == v@.map_values(|x: Vec<char>| x@).contains(s@),
{
    let ghost vv = v@.map_values(|x: Vec<char>| x@);
    let mut i: usize = 0;
    while i < v.len()
        invariant
            i <= v@.len(),
            vv == v@.map_values(|x: Vec<char>| x@),
            forall|k: int| 0 <= k < i ==> vv[k] != s@,
        decreases v@.len() - i,
    {
        if chars_eq(&v[i], s) {
            assert(vv[i as int] == s@);
            return true;
        }
        i = i + 1;
    }
    false
}

/// The characters of each string, as vectors.
fn chars_of_all(v: &Vec<String>) -> (r: Vec<Vec<char>>)
    ensures
        r@.map_values(|x: Vec<char>| x@) == strings_view(v@),
{
    let mut r: Vec<Vec<char>> = Vec::new();
    let mut i: usize = 0;
    while i < v.len()
        invariant
            i <= v@.len(),
            r@.map_values(|x: Vec<char>| x@) == strings_view(v@).take(i as int),
        decreases v@.len() - i,
    {
        let ghost old_r = r@;
        r.push(chars_of(v[i].as_str()));
        assert(r@.map_values(|x: Vec<char>| x@) =~= old_r.map_values(|x: Vec<char>| x@).push(v@[i as int]@));
        assert(r@.map_values(|x: Vec<char>| x@) =~= strings_view(v@).take(i as int + 1));
        i = i + 1;
    }
    assert(strings_view(v@).take(v@.len() as int) =~= strings_view(v@));
    r
}

/// The tags to add given `existing` ones: trimmed, non-blank, not already
/// present and not repeated.
pub fn new_tags(existing: &Vec<String>, tags: &Vec<String>) -> (r: Vec<String>)
    ensures
        strings_view(r@) == new_tags_spec(strings_view(existing@), strings_view(tags@)),
{
    let ex = chars_of_all(existing);
    let ghost ev = strings_view(existing@);
    let ghost tv = strings_view(tags@);
    let mut seen: Vec<Vec<char>> = Vec::new();
    let mut r: Vec<String> = Vec::new();
    let mut i: usize = 0;
    assert(tv.take(0) =~= Seq::<Seq<char>>::empty());
    while i < tags.len()
        invariant
            i <= tags@.len(),
            ex@.map_values(|x: Vec<char>| x@) == ev,
            ev == strings_view(existing@),
            tv == strings_view(tags@),
            strings_view(r@) == new_tags_spec(ev, tv.take(i as int)),
            seen@.map_values(|x: Vec<char>| x@) == strings_view(r@),
        decreases tags@.len() - i,
    {
        assert(tv.take(i as int + 1).drop_last() =~= tv.take(i as int));
        assert(tv.take(i as int + 1).last() == tags@[i as int]@);
        let raw = chars_of(tags[i].as_str());
        let t = trim_chars(&raw);
        if t.len() > 0 && !contains_chars(&ex, &t) && !contains_chars(&seen, &t) {
            let ghost old_r = r@;
            let ghost old_seen = seen@;
            r.push(string_from_chars(t.clone()));
            seen.push(t);
            assert(strings_view(r@) =~= strings_view(old_r).push(r@.last()@));
            assert(seen@.map_values(|x: Vec<char>| x@) =~= old_seen.map_values(|x: Vec<char>| x@).push(seen@.last()@));
        }
        i = i + 1;
    }
    assert(tv.take(tags@.len() as int) =~= tv);
    r
}

/// The tags of a new item: trimmed, non-blank, each once, in the order given.
pub fn dedup_tags(tags: &Vec<String>) -> (r: Vec<String>)
    ensures
        strings_view(r@) == dedup_tags_spec(strings_view(tags@)),
{
    let none: Vec<String> = Vec::new();
    let r = new_tags(&none, tags);
    proof {
        lemma_new_tags_no_existing(strings_view(none@), strings_view(tags@));
    }
    r
}

proof fn lemma_new_tags_no_existing(existing: Seq<Seq<char>>, tags: Seq<Seq<char>>)
    requires
        existing.len() == 0,
    ensures
        new_tags_spec(existing, tags) == dedup_tags_spec(tags),
    decreases tags.len(),
{
    if tags.len() > 0 {
        lemma_new_tags_no_existing(existing, tags.drop_last());
        assert(!existing.contains(trim_ws(tags.last())));
    }
}

/// No tag is attached twice, none is blank, and none already on the item.
pub proof fn new_tags_are_fresh(existing: Seq<Seq<char>>, tags: Seq<Seq<char>>)
    ensures
        forall|i: int, j: int|
            0 <= i < j < new_tags_spec(existing, tags).len() ==> new_tags_spec(existing, tags)[i]
                != new_tags_spec(existing, tags)[j],
        forall|i: int|
            0 <= i < new_tags_spec(existing, tags).len() ==> (#[trigger] new_tags_spec(
                existing,
                tags,
            )[i]).len() > 0 && !existing.contains(new_tags_spec(existing, tags)[i]),
    decreases tags.len(),
{
    if tags.len() > 0 {
        new_tags_are_fresh(existing, tags.drop_last());
        let prev = new_tags_spec(existing, tags.drop_last());
        let cur = new_tags_spec(existing, tags);
        assert forall|i: int, j: int| 0 <= i < j < cur.len() implies cur[i] != cur[j] by {
            if j == prev.len() && cur.len() == prev.len() + 1 {
                assert(cur[i] == prev[i]);
                assert(!prev.contains(cur[j]));
            } else {
                assert(cur[i] == prev[i] && cur[j] == prev[j]);
            }
        }
        assert forall|i: int| 0 <= i < cur.len() implies (#[trigger] cur[i]).len() > 0
            && !existing.contains(cur[i]) by {
            if i < prev.len() {
                assert(cur[i] == prev[i]);
            }
        }
    }
}

/// The ids of the tags to remove: for each name asked for, the first tag with
/// exactly that name, if any.
pub open spec fn remove_ids_spec(raw: Seq<Tag>, remove: Seq<Seq<char>>) -> Seq<i64>
    decreases remove.len(),
{
    if remove.len() == 0 {
        Seq::empty()
    } else {
        let prev = remove_ids_spec(raw, remove.drop_last());
        match first_tag_with(raw, remove.last()) {
            Some(id) => prev.push(id),
            None => prev,
        }
    }
}

/// The id of the first tag named `name`.
pub open spec fn first_tag_with(raw: Seq<Tag>, name: Seq<char>) -> Option<i64>
    decreases raw.len(),
{
    if raw.len() == 0 {
        None
    } else if raw[0].tag@ == name {
        Some(raw[0].id)
    } else {
        first_tag_with(raw.drop_first(), name)
    }
}

fn first_tag_with_exec(raw: &Vec<Tag>, name: &str) -> (r: Option<i64>)
    ensures
        r == first_tag_with(raw@, name@),
{
    let mut i: usize = 0;
    assert(raw@.subrange(0, raw@.len() as int) =~= raw@);
    while i < raw.len()
        invariant
            i <= raw@.len(),
            first_tag_with(raw@, name@) == first_tag_with(
                raw@.subrange(i as int, raw@.len() as int),
                name@,
            ),
        decreases raw@.len() - i,
    {
        let ghost rest = raw@.subrange(i as int, raw@.len() as int);
        assert(rest.drop_first() =~= raw@.subrange(i as int + 1, raw@.len() as int));
        if crate::text::str_eq(raw[i].tag.as_str(), name) {
            return Some(raw[i].id);
        }
        i = i + 1;
    }
    None
}

/// The ids of the tags to delete for `remove_tags`: per name asked for, the
/// first tag with exactly that name (a name asked for twice yields its id twice).
pub fn tags_to_remove(raw: &Vec<Tag>, remove: &Vec<String>) -> (r: Vec<i64>)
    ensures
        r@ == remove_ids_spec(raw@, strings_view(remove@)),
{
    let ghost rv = strings_view(remove@);
    let mut r: Vec<i64> = Vec::new();
    let mut i: usize = 0;
    assert(rv.take(0) =~= Seq::<Seq<char>>::empty());
    while i < remove.len()
        invariant
            i <= remove@.len(),
            rv == strings_view(remove@),
            r@ == remove_ids_spec(raw@, rv.take(i as int)),
        decreases remove@.len() - i,
    {
        assert(rv.take(i as int + 1).drop_last() =~= rv.take(i as int));
        assert(rv.take(i as int + 1).last() == remove@[i as int]@);
        match first_tag_with_exec(raw, remove[i].as_str()) {
            Some(id) => r.push(id),
            None => {},
        }
        i = i + 1;
    }
    assert(rv.take(remove@.len() as int) =~= rv);
    r
}

/// Every tag given is attached unless it is blank once trimmed or already on
/// the item: its trimmed form is among the new tags. And every new tag is
/// the trimmed form of one of the tags given.
pub proof fn new_tags_cover_the_given_tags(existing: Seq<Seq<char>>, tags: Seq<Seq<char>>)
    ensures
        forall|k: int|
            #![trigger tags[k]]
            0 <= k < tags.len() && trim_ws(tags[k]).len() > 0 && !existing.contains(trim_ws(tags[k]))
                ==> new_tags_spec(existing, tags).contains(trim_ws(tags[k])),
        forall|i: int|
            #![trigger new_tags_spec(existing, tags)[i]]
            0 <= i < new_tags_spec(existing, tags).len() ==> exists|k: int|
                0 <= k < tags.len() && new_tags_spec(existing, tags)[i] == trim_ws(#[trigger] tags[k]),
    decreases tags.len(),
{
    if tags.len() > 0 {
        let init = tags.drop_last();
        new_tags_cover_the_given_tags(existing, init);
        let prev = new_tags_spec(existing, init);
        let cur = new_tags_spec(existing, tags);
        let t = trim_ws(tags.last());
        assert forall|k: int|
            #![trigger tags[k]]
            0 <= k < tags.len() && trim_ws(tags[k]).len() > 0 && !existing.contains(trim_ws(tags[k]))
                implies cur.contains(trim_ws(tags[k])) by {
            if k < init.len() {
                assert(init[k] == tags[k]);
                let j = choose|j: int| 0 <= j < prev.len() && prev[j] == trim_ws(tags[k]);
                assert(cur[j] == prev[j]);
            } else {
                assert(tags[k] == tags.last());
                if !prev.contains(t) {
                    assert(cur[prev.len() as int] == t);
                } else {
                    let j = choose|j: int| 0 <= j < prev.len() && prev[j] == t;
                    assert(cur[j] == prev[j]);
                }
            }
        }
        assert forall|i: int|
            #![trigger cur[i]]
            0 <= i < cur.len() implies exists|k: int|
                0 <= k < tags.len() && cur[i] == trim_ws(#[trigger] tags[k]) by {
            if i < prev.len() {
                assert(cur[i] == prev[i]);
                let k = choose|k: int| 0 <= k < init.len() && prev[i] == trim_ws(#[trigger] init[k]);
                assert(tags[k] == init[k]);
            } else {
                assert(tags[tags.len() - 1] == tags.last());
            }
        }
    }
}

/// The tags of a new item: every given tag that is not blank once trimmed
/// is among them, trimmed; each is the trimmed form of a given tag; and none
/// is blank or repeated.
pub proof fn dedup_tags_keeps_each_tag_once(tags: Seq<Seq<char>>)
    ensures
        forall|k: int|
            #![trigger tags[k]]
            0 <= k < tags.len() && trim_ws(tags[k]).len() > 0 ==> dedup_tags_spec(tags).contains(
                trim_ws(tags[k]),
            ),
        forall|i: int|
            #![trigger dedup_tags_spec(tags)[i]]
            0 <= i < dedup_tags_spec(tags).len() ==> dedup_tags_spec(tags)[i].len() > 0 && exists|k: int|
                0 <= k < tags.len() && dedup_tags_spec(tags)[i] == trim_ws(#[trigger] tags[k]),
        forall|i: int, j: int|
            0 <= i < j < dedup_tags_spec(tags).len() ==> dedup_tags_spec(tags)[i] != dedup_tags_spec(tags)[j],
{
    let none = Seq::<Seq<char>>::empty();
    lemma_new_tags_no_existing(none, tags);
    new_tags_cover_the_given_tags(none, tags);
    new_tags_are_fresh(none, tags);
}

/// Each id that `remove_tags` deletes is that of a tag whose name is one of
/// the names asked for: the result gives that tag's index and the name's.
pub proof fn removed_tag_is_a_named_one(raw: Seq<Tag>, remove: Seq<Seq<char>>, i: int) -> (w: (int, int))
    requires
        0 <= i < remove_ids_spec(raw, remove).len(),
    ensures
        0 <= w.0 < raw.len(),
        0 <= w.1 < remove.len(),
        raw[w.0].id == remove_ids_spec(raw, remove)[i],
        raw[w.0].tag@ == remove[w.1],
    decreases remove.len(),
{
    let init = remove.drop_last();
    let prev = remove_ids_spec(raw, init);
    let name = remove.last();
    lemma_first_tag_with(raw, name);
    if i < prev.len() {
        let w = removed_tag_is_a_named_one(raw, init, i);
        assert(remove[w.1] == init[w.1]);
        w
    } else {
        let t = choose|t: int| 0 <= t < raw.len() && raw[t].tag@ == name && raw[t].id == first_tag_with(raw, name)->0;
        (t, remove.len() - 1)
    }
}

/// For every name asked for that some tag has, `remove_tags` deletes the
/// first such tag.
pub proof fn removed_tags_include_each_named_one(raw: Seq<Tag>, remove: Seq<Seq<char>>, n: int, t: int)
    requires
        0 <= n < remove.len(),
        0 <= t < raw.len(),
        raw[t].tag@ == remove[n],
        forall|u: int| 0 <= u < t ==> (#[trigger] raw[u]).tag@ != remove[n],
    ensures
        remove_ids_spec(raw, remove).contains(raw[t].id),
    decreases remove.len(),
{
    let init = remove.drop_last();
    let prev = remove_ids_spec(raw, init);
    let cur = remove_ids_spec(raw, remove);
    let name = remove.last();
    lemma_first_tag_with(raw, name);
    if n < init.len() {
        assert(init[n] == remove[n]);
        removed_tags_include_each_named_one(raw, init, n, t);
        let j = choose|j: int| 0 <= j < prev.len() && prev[j] == raw[t].id;
        assert(cur[j] == prev[j]);
    } else {
        assert(first_tag_with(raw, name) == Some(raw[t].id));
        assert(cur[prev.len() as int] == raw[t].id);
    }
}

proof fn lemma_first_tag_with(raw: Seq<Tag>, name: Seq<char>)
    ensures
        first_tag_with(raw, name) matches Some(id) ==> exists|t: int|
            0 <= t < raw.len() && raw[t].tag@ == name && raw[t].id == id,
        forall|t: int|
            #![trigger raw[t]]
            0 <= t < raw.len() && raw[t].tag@ == name && (forall|u: int|
                0 <= u < t ==> (#[trigger] raw[u]).tag@ != name) ==> first_tag_with(raw, name) == Some(
                raw[t].id,
            ),
    decreases raw.len(),
{
    if raw.len() > 0 {
        let rest = raw.drop_first();
        lemma_first_tag_with(rest, name);
        if raw[0].tag@ != name {
            if first_tag_with(rest, name) is Some {
                let t = choose|t: int| 0 <= t < rest.len() && rest[t].tag@ == name && rest[t].id
                    == first_tag_with(rest, name)->0;
                assert(raw[t + 1] == rest[t]);
            }
            assert forall|t: int|
                #![trigger raw[t]]
                0 <= t < raw.len() && raw[t].tag@ == name && (forall|u: int|
                    0 <= u < t ==> (#[trigger] raw[u]).tag@ != name) implies first_tag_with(raw, name)
                    == Some(raw[t].id) by {
                assert(t > 0);
                assert(rest[t - 1] == raw[t]);
                assert forall|u: int| 0 <= u < t - 1 implies (#[trigger] rest[u]).tag@ != name by {
                    assert(rest[u] == raw[u + 1]);
                }
            }
        } else {
            assert forall|t: int|
                #![trigger raw[t]]
                0 <= t < raw.len() && raw[t].tag@ == name && (forall|u: int|
                    0 <= u < t ==> (#[trigger] raw[u]).tag@ != name) implies first_tag_with(raw, name)
                    == Some(raw[t].id) by {
                if t > 0 {
                    assert(raw[0].tag@ != name);
                }
            }
        }
    }
}

} // verus!
