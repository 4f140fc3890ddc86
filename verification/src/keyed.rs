//! String-keyed tables with at most one entry per key, kept in insertion
//! order: the cache, credential and icon maps of the client.

use vstd::prelude::*;

verus! {

/// One entry of a table.
pub struct Entry<V> {
    pub key: String,
    pub value: V,
}

/// The table as (key, value) pairs.
pub open spec fn entries_view<V>(es: Seq<Entry<V>>) -> Seq<(Seq<char>, V)> {
    es.map_values(|e: Entry<V>| (e.key@, e.value))
}

/// Position of the first entry with key `k`, from `from` on.
pub open spec fn position_of<V>(kv: Seq<(Seq<char>, V)>, k: Seq<char>, from: int) -> Option<int>
    decreases kv.len() - from,
{
    if from < 0 || from >= kv.len() {
        None
    } else if kv[from].0 == k {
        Some(from)
    } else {
        position_of(kv, k, from + 1)
    }
}

/// The value stored under `k`.
pub open spec fn value_of<V>(kv: Seq<(Seq<char>, V)>, k: Seq<char>) -> Option<V> {
    match position_of(kv, k, 0) {
        Some(i) => Some(kv[i].1),
        None => None,
    }
}

/// No key occurs twice.
pub open spec fn unique_keys<V>(kv: Seq<(Seq<char>, V)>) -> bool {
    forall|i: int, j: int| 0 <= i < j < kv.len() ==> kv[i].0 != kv[j].0
}

/// The table with `v` stored under `k` (replacing the value there, or added
/// at the end).
pub open spec fn with_entry<V>(kv: Seq<(Seq<char>, V)>, k: Seq<char>, v: V) -> Seq<(Seq<char>, V)> {
    match position_of(kv, k, 0) {
        Some(i) => kv.update(i, (k, v)),
        None => kv.push((k, v)),
    }
}

/// The table without the entry of `k`.
pub open spec fn without_entry<V>(kv: Seq<(Seq<char>, V)>, k: Seq<char>) -> Seq<(Seq<char>, V)> {
    match position_of(kv, k, 0) {
        Some(i) => kv.remove(i),
        None => kv,
    }
}

pub proof fn lemma_position_of<V>(kv: Seq<(Seq<char>, V)>, k: Seq<char>, from: int)
    requires
        0 <= from,
    ensures
        position_of(kv, k, from) matches Some(i) ==> from <= i < kv.len() && kv[i].0 == k && (
        forall|j: int| from <= j < i ==> kv[j].0 != k),
        position_of(kv, k, from) is None ==> forall|j: int|
            from <= j < kv.len() ==> #[trigger] kv[j].0 != k,
    decreases kv.len() - from,
{
    if !(from < 0 || from >= kv.len()) && kv[from].0 != k {
        lemma_position_of(kv, k, from + 1);
    }
}

/// Reading back a key gives the value last stored under it; other keys keep
/// their values; keys stay unique.
pub proof fn lemma_with_entry<V>(kv: Seq<(Seq<char>, V)>, k: Seq<char>, v: V, other: Seq<char>)
    requires
        unique_keys(kv),
    ensures
        value_of(with_entry(kv, k, v), k) == Some(v),
        other != k ==> value_of(with_entry(kv, k, v), other) == value_of(kv, other),
        unique_keys(with_entry(kv, k, v)),
{
    let w = with_entry(kv, k, v);
    lemma_position_of(kv, k, 0);
    lemma_position_of(kv, other, 0);
    lemma_position_of(w, k, 0);
    lemma_position_of(w, other, 0);
    match position_of(kv, k, 0) {
        Some(i) => {
            assert(w[i].0 == k);
        },
        None => {
            assert(w[kv.len() as int].0 == k);
        },
    }
    match position_of(kv, other, 0) {
        Some(i) => {
            if other != k {
                assert(w[i].0 == other);
            }
        },
        None => {},
    }
}

/// After removal a key reads as absent; other keys keep their values; keys
/// stay unique.
pub proof fn lemma_without_entry<V>(kv: Seq<(Seq<char>, V)>, k: Seq<char>, other: Seq<char>)
    requires
        unique_keys(kv),
    ensures
        value_of(without_entry(kv, k), k) is None,
        other != k ==> value_of(without_entry(kv, k), other) == value_of(kv, other),
        unique_keys(without_entry(kv, k)),
{
    let w = without_entry(kv, k);
    lemma_position_of(kv, k, 0);
    lemma_position_of(kv, other, 0);
    lemma_position_of(w, k, 0);
    lemma_position_of(w, other, 0);
    match position_of(kv, k, 0) {
        Some(i) => {
            match position_of(kv, other, 0) {
                Some(p) => {
                    if other != k {
                        if p < i {
                            assert(w[p].0 == other);
                        } else {
                            assert(w[p - 1].0 == other);
                        }
                    }
                },
                None => {},
            }
        },
        None => {},
    }
}

/// Reading back a key gives the value last stored under it, whatever else
/// the table holds.
pub proof fn lemma_with_entry_read<V>(kv: Seq<(Seq<char>, V)>, k: Seq<char>, v: V)
    ensures
        value_of(with_entry(kv, k, v), k) == Some(v),
{
    let w = with_entry(kv, k, v);
    lemma_position_of(kv, k, 0);
    lemma_position_of(w, k, 0);
    match position_of(kv, k, 0) {
        Some(i) => {
            assert(w[i].0 == k);
        },
        None => {
            assert(w[kv.len() as int].0 == k);
        },
    }
}

/// Position of the entry of `key`.
pub fn find_entry<V>(es: &Vec<Entry<V>>, key: &str) -> (r: Option<usize>)
    ensures
        r matches Some(i) ==> position_of(entries_view(es@), key@, 0) == Some(i as int),
        r is None ==> position_of(entries_view(es@), key@, 0) is None,
{
    let ghost kv = entries_view(es@);
    let mut i: usize = 0;
    while i < es.len()
        invariant
            i <= es.len(),
            kv == entries_view(es@),
            position_of(kv, key@, 0) == position_of(kv, key@, i as int),
        decreases es.len() - i,
    {
        if crate::text::str_eq(es[i].key.as_str(), key) {
            return Some(i);
        }
        i = i + 1;
    }
    None
}

/// Stores `value` under `key`.
pub fn set_entry<V>(es: &mut Vec<Entry<V>>, key: String, value: V)
    ensures
        entries_view(final(es)@) == with_entry(entries_view(old(es)@), key@, value),
{
    let ghost kv = entries_view(es@);
    match find_entry(es, key.as_str()) {
        Some(i) => {
            let ghost k = key@;
            proof {
                lemma_position_of(kv, k, 0);
            }
            es.set(i, Entry { key, value });
            assert(entries_view(es@) =~= with_entry(kv, k, value));
        },
        None => {
            let ghost k = key@;
            es.push(Entry { key, value });
            assert(entries_view(es@) =~= with_entry(kv, k, value));
        },
    }
}

/// Removes the entry of `key`; whether there was one.
pub fn remove_entry<V>(es: &mut Vec<Entry<V>>, key: &str) -> (r: bool)
    ensures
        entries_view(final(es)@) == without_entry(entries_view(old(es)@), key@),
        r == (position_of(entries_view(old(es)@), key@, 0) is Some),
{
    let ghost kv = entries_view(es@);
    match find_entry(es, key) {
        Some(i) => {
            proof {
                lemma_position_of(kv, key@, 0);
            }
            es.remove(i);
            assert(entries_view(es@) =~= without_entry(kv, key@));
            true
        },
        None => false,
    }
}

} // verus!
