//! What a profile has watched: the set of finished items, the resume
//! positions of unfinished ones, and the files they are kept in.

use vstd::prelude::*;

use crate::keyed::{entries_view, find_entry, remove_entry, value_of, without_entry, Entry};
use crate::profiles::{add_profile_name, list_contains, names_view, remove_profile_name, with_name, without_name};
use crate::text::{chars_of, push_str};

verus! {

/// `c`, or `_` when it is a slash, a backslash or NUL.
pub open spec fn safe_char(c: char) -> char {
    if c == '/' || c == '\\' || c == '\0' {
        '_'
    } else {
        c
    }
}

/// A profile name made safe for a file name.
pub open spec fn spec_safe_name(profile: Seq<char>) -> Seq<char> {
    profile.map_values(|c: char| safe_char(c))
}

/// The profile name with slashes, backslashes and NULs replaced by `_`.
pub fn safe_profile_name(profile: &str) -> (r: String)
    ensures
        r@ == spec_safe_name(profile@),
{
    let v = chars_of(profile);
    let mut out = String::new();
    let mut i: usize = 0;
    while i < v.len()
        invariant
            i <= v.len(),
            out@ == spec_safe_name(v@.take(i as int)),
        decreases v.len() - i,
    {
        let c = v[i];
        let d = if c == '/' || c == '\\' || c == '\0' {
            '_'
        } else {
            c
        };
        out.push(d);
        assert(spec_safe_name(v@.take(i + 1)) =~= spec_safe_name(v@.take(i as int)).push(d));
        i = i + 1;
    }
    assert(v@.take(v.len() as int) =~= v@);
    out
}

/// The file that keeps the resume positions of a profile.
pub fn progress_file_name(profile: &str) -> (r: String)
    ensures
        r@ == "progress_"@ + spec_safe_name(profile@) + ".json"@,
{
    let mut s = String::new();
    push_str(&mut s, "progress_");
    let safe = safe_profile_name(profile);
    push_str(&mut s, safe.as_str());
    push_str(&mut s, ".json");
    s
}

/// The file that keeps the finished items of a profile.
pub fn watched_file_name(profile: &str) -> (r: String)
    ensures
        r@ == "watched_"@ + spec_safe_name(profile@) + ".json"@,
{
    let mut s = String::new();
    push_str(&mut s, "watched_");
    let safe = safe_profile_name(profile);
    push_str(&mut s, safe.as_str());
    push_str(&mut s, ".json");
    s
}

// ─── The watched set ─────────────────────────────────────────────────────────

/// `set` with each of `keys` added, in order, unless present.
pub open spec fn insert_all(set: Seq<Seq<char>>, keys: Seq<Seq<char>>) -> Seq<Seq<char>>
    decreases keys.len(),
{
    if keys.len() == 0 {
        set
    } else {
        with_name(insert_all(set, keys.drop_last()), keys.last())
    }
}

/// `set` without any of `keys`.
pub open spec fn remove_all(set: Seq<Seq<char>>, keys: Seq<Seq<char>>) -> Seq<Seq<char>>
    decreases keys.len(),
{
    if keys.len() == 0 {
        set
    } else {
        without_name(remove_all(set, keys.drop_last()), keys.last())
    }
}

/// The `keys` that are in `set`, in the order of `keys`.
pub open spec fn among(set: Seq<Seq<char>>, keys: Seq<Seq<char>>) -> Seq<Seq<char>>
    decreases keys.len(),
{
    if keys.len() == 0 {
        keys
    } else if set.contains(keys.last()) {
        among(set, keys.drop_last()).push(keys.last())
    } else {
        among(set, keys.drop_last())
    }
}

/// Marks `keys` as watched; whether the set changed (and so has to be saved).
pub fn insert_watched(set: &mut Vec<String>, keys: &Vec<String>) -> (changed: bool)
    ensures
        names_view(final(set)@) == insert_all(names_view(old(set)@), names_view(keys@)),
        changed == (names_view(final(set)@).len() != names_view(old(set)@).len()),
{
    let ghost kv = names_view(keys@);
    let ghost s0 = names_view(set@);
    let mut changed = false;
    let mut i: usize = 0;
    assert(kv.take(0) =~= Seq::<Seq<char>>::empty());
    while i < keys.len()
        invariant
            i <= keys.len(),
            kv == names_view(keys@),
            names_view(set@) == insert_all(s0, kv.take(i as int)),
            names_view(set@).len() >= s0.len(),
            changed == (names_view(set@).len() != s0.len()),
        decreases keys.len() - i,
    {
        assert(kv.take(i + 1).drop_last() =~= kv.take(i as int));
        assert(kv.take(i + 1).last() == keys@[i as int]@);
        if add_profile_name(set, keys[i].as_str()) {
            changed = true;
        }
        i = i + 1;
    }
    assert(kv.take(keys.len() as int) =~= kv);
    changed
}

pub proof fn lemma_without_name_len(names: Seq<Seq<char>>, name: Seq<char>)
    ensures
        without_name(names, name).len() <= names.len(),
        without_name(names, name).len() == names.len() <==> !names.contains(name),
    decreases names.len(),
{
    if names.len() > 0 {
        lemma_without_name_len(names.drop_last(), name);
        if names.drop_last().contains(name) {
            let k = choose|k: int| 0 <= k < names.drop_last().len() && names.drop_last()[k] == name;
            assert(names[k] == name);
        }
        if names.contains(name) && names.last() != name {
            let k = choose|k: int| 0 <= k < names.len() && names[k] == name;
            assert(names.drop_last()[k] == name);
        }
    }
}

/// Marks `keys` as not watched; whether the set changed.
pub fn remove_watched(set: &mut Vec<String>, keys: &Vec<String>) -> (changed: bool)
    ensures
        names_view(final(set)@) == remove_all(names_view(old(set)@), names_view(keys@)),
        changed == (names_view(final(set)@).len() != names_view(old(set)@).len()),
{
    let ghost kv = names_view(keys@);
    let ghost s0 = names_view(set@);
    let mut changed = false;
    let mut i: usize = 0;
    assert(kv.take(0) =~= Seq::<Seq<char>>::empty());
    while i < keys.len()
        invariant
            i <= keys.len(),
            kv == names_view(keys@),
            names_view(set@) == remove_all(s0, kv.take(i as int)),
            names_view(set@).len() <= s0.len(),
            changed == (names_view(set@).len() != s0.len()),
        decreases keys.len() - i,
    {
        assert(kv.take(i + 1).drop_last() =~= kv.take(i as int));
        assert(kv.take(i + 1).last() == keys@[i as int]@);
        proof {
            lemma_without_name_len(names_view(set@), keys@[i as int]@);
        }
        if list_contains(set, keys[i].as_str()) {
            changed = true;
        }
        remove_profile_name(set, keys[i].as_str());
        i = i + 1;
    }
    assert(kv.take(keys.len() as int) =~= kv);
    changed
}

/// The `keys` that are marked watched, in the order of `keys`.
pub fn watched_among(set: &Vec<String>, keys: &Vec<String>) -> (r: Vec<String>)
    ensures
        names_view(r@) == among(names_view(set@), names_view(keys@)),
{
    let ghost kv = names_view(keys@);
    let mut r: Vec<String> = Vec::new();
    let mut i: usize = 0;
    assert(kv.take(0) =~= Seq::<Seq<char>>::empty());
    while i < keys.len()
        invariant
            i <= keys.len(),
            kv == names_view(keys@),
            names_view(r@) == among(names_view(set@), kv.take(i as int)),
        decreases keys.len() - i,
    {
        assert(kv.take(i + 1).drop_last() =~= kv.take(i as int));
        assert(kv.take(i + 1).last() == keys@[i as int]@);
        if list_contains(set, keys[i].as_str()) {
            let ghost before = names_view(r@);
            r.push(keys[i].clone());
            assert(names_view(r@) =~= before.push(kv[i as int]));
        }
        i = i + 1;
    }
    assert(kv.take(keys.len() as int) =~= kv);
    r
}

// ─── Resume positions ────────────────────────────────────────────────────────

/// `map` without the entries of any of `keys`.
pub open spec fn without_all<V>(map: Seq<(Seq<char>, V)>, keys: Seq<Seq<char>>) -> Seq<
    (Seq<char>, V),
>
    decreases keys.len(),
{
    if keys.len() == 0 {
        map
    } else {
        without_entry(without_all(map, keys.drop_last()), keys.last())
    }
}

/// Drops the resume positions of `keys`; whether any was there.
pub fn remove_progress<V>(map: &mut Vec<Entry<V>>, keys: &Vec<String>) -> (changed: bool)
    ensures
        entries_view(final(map)@) == without_all(entries_view(old(map)@), names_view(keys@)),
        changed == (final(map)@.len() != old(map)@.len()),
{
    let ghost kv = names_view(keys@);
    let ghost m0 = entries_view(map@);
    let ghost n0 = map@.len();
    let mut changed = false;
    let mut i: usize = 0;
    assert(kv.take(0) =~= Seq::<Seq<char>>::empty());
    while i < keys.len()
        invariant
            i <= keys.len(),
            kv == names_view(keys@),
            entries_view(map@) == without_all(m0, kv.take(i as int)),
            map@.len() <= n0,
            changed == (map@.len() != n0),
        decreases keys.len() - i,
    {
        assert(kv.take(i + 1).drop_last() =~= kv.take(i as int));
        assert(kv.take(i + 1).last() == keys@[i as int]@);
        proof {
            crate::keyed::lemma_position_of(entries_view(map@), keys@[i as int]@, 0);
        }
        let ghost before_len = map@.len();
        let removed = remove_entry(map, keys[i].as_str());
        assert(map@.len() == entries_view(map@).len());
        assert(removed ==> map@.len() == before_len - 1);
        assert(!removed ==> map@.len() == before_len);
        if removed {
            changed = true;
        }
        i = i + 1;
    }
    assert(kv.take(keys.len() as int) =~= kv);
    changed
}

// ─── Laws ────────────────────────────────────────────────────────────────────

/// After marking keys watched, every one of them reads as watched.
pub proof fn lemma_marked_keys_read_watched(set: Seq<Seq<char>>, keys: Seq<Seq<char>>)
    ensures
        among(insert_all(set, keys), keys) == keys,
    decreases keys.len(),
{
    lemma_insert_all_contains(set, keys);
    lemma_among_all(insert_all(set, keys), keys);
}

proof fn lemma_insert_all_contains(set: Seq<Seq<char>>, keys: Seq<Seq<char>>)
    ensures
        forall|k: Seq<char>| keys.contains(k) ==> insert_all(set, keys).contains(k),
        forall|k: Seq<char>| set.contains(k) ==> insert_all(set, keys).contains(k),
    decreases keys.len(),
{
    if keys.len() > 0 {
        let d = keys.drop_last();
        lemma_insert_all_contains(set, d);
        let prev = insert_all(set, d);
        assert forall|k: Seq<char>| prev.contains(k) implies with_name(prev, keys.last()).contains(
            k,
        ) by {
            if !prev.contains(keys.last()) {
                let j = choose|j: int| 0 <= j < prev.len() && prev[j] == k;
                assert(prev.push(keys.last())[j] == k);
            }
        }
        assert forall|k: Seq<char>| keys.contains(k) implies insert_all(set, keys).contains(k) by {
            let j = choose|j: int| 0 <= j < keys.len() && keys[j] == k;
            if j < keys.len() - 1 {
                assert(d[j] == k);
                assert(d.contains(k));
                assert(prev.contains(k));
            } else if !prev.contains(keys.last()) {
                assert(prev.push(keys.last())[prev.len() as int] == k);
            }
        }
    }
}

proof fn lemma_among_all(set: Seq<Seq<char>>, keys: Seq<Seq<char>>)
    requires
        forall|k: Seq<char>| keys.contains(k) ==> set.contains(k),
    ensures
        among(set, keys) == keys,
    decreases keys.len(),
{
    if keys.len() > 0 {
        let d = keys.drop_last();
        assert forall|k: Seq<char>| d.contains(k) implies set.contains(k) by {
            let j = choose|j: int| 0 <= j < d.len() && d[j] == k;
            assert(keys[j] == k);
        }
        lemma_among_all(set, d);
        assert(keys.contains(keys.last())) by {
            assert(keys[keys.len() - 1] == keys.last());
        }
        assert(d.push(keys.last()) =~= keys);
    }
}

/// After unmarking keys, none of them reads as watched.
pub proof fn lemma_unmarked_keys_read_unwatched(set: Seq<Seq<char>>, keys: Seq<Seq<char>>)
    ensures
        among(remove_all(set, keys), keys).len() == 0,
{
    lemma_remove_all_excludes(set, keys);
    lemma_among_none(remove_all(set, keys), keys);
}

proof fn lemma_without_name_excludes(names: Seq<Seq<char>>, name: Seq<char>)
    ensures
        !without_name(names, name).contains(name),
        forall|k: Seq<char>| !names.contains(k) ==> !without_name(names, name).contains(k),
    decreases names.len(),
{
    if names.len() > 0 {
        let d = names.drop_last();
        lemma_without_name_excludes(d, name);
        let r = without_name(d, name);
        assert forall|k: Seq<char>| !names.contains(k) implies !without_name(names, name).contains(
            k,
        ) by {
            if d.contains(k) {
                let j = choose|j: int| 0 <= j < d.len() && d[j] == k;
                assert(names[j] == k);
            }
            if names.last() != name {
                if r.push(names.last()).contains(k) {
                    let j = choose|j: int| 0 <= j < r.len() + 1 && r.push(names.last())[j] == k;
                    if j == r.len() {
                        assert(names[names.len() - 1] == k);
                    }
                }
            }
        }
        if names.last() != name {
            if r.push(names.last()).contains(name) {
                let j = choose|j: int| 0 <= j < r.len() + 1 && r.push(names.last())[j] == name;
                assert(j < r.len());
                assert(r[j] == name);
            }
        }
    }
}

proof fn lemma_remove_all_excludes(set: Seq<Seq<char>>, keys: Seq<Seq<char>>)
    ensures
        forall|k: Seq<char>| keys.contains(k) ==> !remove_all(set, keys).contains(k),
    decreases keys.len(),
{
    if keys.len() > 0 {
        let d = keys.drop_last();
        lemma_remove_all_excludes(set, d);
        let prev = remove_all(set, d);
        lemma_without_name_excludes(prev, keys.last());
        assert forall|k: Seq<char>| keys.contains(k) implies !remove_all(set, keys).contains(k) by {
            let j = choose|j: int| 0 <= j < keys.len() && keys[j] == k;
            if j < keys.len() - 1 {
                assert(d[j] == k);
                assert(d.contains(k));
                assert(!prev.contains(k));
            }
        }
    }
}

proof fn lemma_among_none(set: Seq<Seq<char>>, keys: Seq<Seq<char>>)
    requires
        forall|k: Seq<char>| keys.contains(k) ==> !set.contains(k),
    ensures
        among(set, keys).len() == 0,
    decreases keys.len(),
{
    if keys.len() > 0 {
        let d = keys.drop_last();
        assert forall|k: Seq<char>| d.contains(k) implies !set.contains(k) by {
            let j = choose|j: int| 0 <= j < d.len() && d[j] == k;
            assert(keys[j] == k);
        }
        lemma_among_none(set, d);
        assert(keys[keys.len() - 1] == keys.last());
    }
}

} // verus!
