//! Grouping of keyed items by key, keeping the order in which keys first
//! appear and the order of the items within each group.

use vstd::prelude::*;

verus! {

/// The items that share one key.
pub struct Group<T> {
    pub key: String,
    pub items: Vec<T>,
}

/// A list of groups as (key, items) pairs.
pub open spec fn groups_view<T>(gs: Seq<Group<T>>) -> Seq<(Seq<char>, Seq<T>)> {
    gs.map_values(|g: Group<T>| (g.key@, g.items@))
}

/// Position of the first group with key `k`.
pub open spec fn key_position<T>(gs: Seq<(Seq<char>, Seq<T>)>, k: Seq<char>, from: int) -> Option<int>
    decreases gs.len() - from,
{
    if from < 0 || from >= gs.len() {
        None
    } else if gs[from].0 == k {
        Some(from)
    } else {
        key_position(gs, k, from + 1)
    }
}

/// `gs` with `x` added to the group of key `k` (a new group at the end when
/// there is none).
pub open spec fn group_insert<T>(gs: Seq<(Seq<char>, Seq<T>)>, k: Seq<char>, x: T) -> Seq<
    (Seq<char>, Seq<T>),
> {
    match key_position(gs, k, 0) {
        Some(i) => gs.update(i, (k, gs[i].1.push(x))),
        None => gs.push((k, seq![x])),
    }
}

/// The keyed items grouped by key: groups in the order in which their keys
/// first appear, items within a group in the order they came.
pub open spec fn grouped<T>(items: Seq<(Seq<char>, T)>) -> Seq<(Seq<char>, Seq<T>)>
    decreases items.len(),
{
    if items.len() == 0 {
        seq![]
    } else {
        group_insert(grouped(items.drop_last()), items.last().0, items.last().1)
    }
}

pub proof fn lemma_key_position<T>(gs: Seq<(Seq<char>, Seq<T>)>, k: Seq<char>, from: int)
    requires
        0 <= from,
    ensures
        key_position(gs, k, from) matches Some(i) ==> from <= i < gs.len() && gs[i].0 == k && (
        forall|j: int| from <= j < i ==> gs[j].0 != k),
        key_position(gs, k, from) is None ==> forall|j: int|
            from <= j < gs.len() ==> #[trigger] gs[j].0 != k,
    decreases gs.len() - from,
{
    if !(from < 0 || from >= gs.len()) && gs[from].0 != k {
        lemma_key_position(gs, k, from + 1);
    }
}

/// Adds `x` to the group of `key` in `gs`, or opens a new group for it.
pub fn push_grouped<T>(gs: &mut Vec<Group<T>>, key: String, x: T)
    ensures
        groups_view(final(gs)@) == group_insert(groups_view(old(gs)@), key@, x),
{
    let ghost gv = groups_view(gs@);
    let mut i: usize = 0;
    while i < gs.len()
        invariant
            i <= gs.len(),
            gs@ == old(gs)@,
            gv == groups_view(gs@),
            key_position(gv, key@, 0) == key_position(gv, key@, i as int),
        decreases gs.len() - i,
    {
        if gs[i].key == key {
            assert(gv[i as int].0 == key@);
            let mut g = gs.remove(i);
            g.items.push(x);
            gs.insert(i, g);
            assert(groups_view(gs@) =~= group_insert(gv, key@, x));
            return;
        }
        i = i + 1;
    }
    assert(gv.len() == gs@.len());
    assert(key_position(gv, key@, i as int) is None);
    let ghost k = key@;
    gs.push(Group { key, items: vec![x] });
    assert(gs@.last().items@ =~= seq![x]);
    assert(groups_view(gs@) =~= group_insert(gv, k, x));
}

} // verus!

verus! {

/// `gs` with `f` applied to every item.
pub open spec fn map_groups<T, U>(gs: Seq<(Seq<char>, Seq<T>)>, f: spec_fn(T) -> U) -> Seq<
    (Seq<char>, Seq<U>),
> {
    gs.map_values(|g: (Seq<char>, Seq<T>)| (g.0, g.1.map_values(f)))
}

pub proof fn lemma_key_position_map<T, U>(
    gs: Seq<(Seq<char>, Seq<T>)>,
    f: spec_fn(T) -> U,
    k: Seq<char>,
    from: int,
)
    ensures
        key_position(map_groups(gs, f), k, from) == key_position(gs, k, from),
    decreases gs.len() - from,
{
    if !(from < 0 || from >= gs.len()) && gs[from].0 != k {
        lemma_key_position_map(gs, f, k, from + 1);
    }
}

/// Mapping the items commutes with adding one.
pub proof fn lemma_map_group_insert<T, U>(
    gs: Seq<(Seq<char>, Seq<T>)>,
    k: Seq<char>,
    x: T,
    f: spec_fn(T) -> U,
)
    ensures
        map_groups(group_insert(gs, k, x), f) == group_insert(map_groups(gs, f), k, f(x)),
{
    lemma_key_position_map(gs, f, k, 0);
    lemma_key_position(gs, k, 0);
    let lhs = map_groups(group_insert(gs, k, x), f);
    let rhs = group_insert(map_groups(gs, f), k, f(x));
    match key_position(gs, k, 0) {
        Some(i) => {
            assert(gs[i].1.push(x).map_values(f) =~= gs[i].1.map_values(f).push(f(x)));
            assert(lhs =~= rhs);
        },
        None => {
            assert(seq![x].map_values(f) =~= seq![f(x)]);
            assert(lhs =~= rhs);
        },
    }
}

} // verus!

verus! {

/// `gs` with the items of key `k` replaced by `items` (a new group at the end
/// when there is none).
pub open spec fn group_set<T>(gs: Seq<(Seq<char>, Seq<T>)>, k: Seq<char>, items: Seq<T>) -> Seq<
    (Seq<char>, Seq<T>),
> {
    match key_position(gs, k, 0) {
        Some(i) => gs.update(i, (k, items)),
        None => gs.push((k, items)),
    }
}

/// The items of the group of `k`.
pub open spec fn group_items<T>(gs: Seq<(Seq<char>, Seq<T>)>, k: Seq<char>) -> Option<Seq<T>> {
    match key_position(gs, k, 0) {
        Some(i) => Some(gs[i].1),
        None => None,
    }
}

/// Position of the group of `key`.
pub fn find_group<T>(gs: &Vec<Group<T>>, key: &str) -> (r: Option<usize>)
    ensures
        r matches Some(i) ==> key_position(groups_view(gs@), key@, 0) == Some(i as int),
        r is None ==> key_position(groups_view(gs@), key@, 0) is None,
{
    let ghost gv = groups_view(gs@);
    let mut i: usize = 0;
    while i < gs.len()
        invariant
            i <= gs.len(),
            gv == groups_view(gs@),
            key_position(gv, key@, 0) == key_position(gv, key@, i as int),
        decreases gs.len() - i,
    {
        if crate::text::str_eq(gs[i].key.as_str(), key) {
            return Some(i);
        }
        i = i + 1;
    }
    None
}

/// Replaces the items of `key` (or adds a group for it).
pub fn set_group<T>(gs: &mut Vec<Group<T>>, key: String, items: Vec<T>)
    ensures
        groups_view(final(gs)@) == group_set(groups_view(old(gs)@), key@, items@),
{
    let ghost gv = groups_view(gs@);
    let ghost k = key@;
    let ghost iv = items@;
    match find_group(gs, key.as_str()) {
        Some(i) => {
            proof {
                lemma_key_position(gv, k, 0);
            }
            gs.set(i, Group { key, items });
            assert(groups_view(gs@) =~= group_set(gv, k, iv));
        },
        None => {
            gs.push(Group { key, items });
            assert(groups_view(gs@) =~= group_set(gv, k, iv));
        },
    }
}

/// Reading back a key gives the items last set under it, whatever else the
/// list holds.
pub proof fn lemma_group_set_read<T>(gs: Seq<(Seq<char>, Seq<T>)>, k: Seq<char>, items: Seq<T>)
    ensures
        group_items(group_set(gs, k, items), k) == Some(items),
{
    lemma_key_position(gs, k, 0);
    let w = group_set(gs, k, items);
    lemma_key_position(w, k, 0);
    match key_position(gs, k, 0) {
        Some(i) => {
            assert(w[i].0 == k);
        },
        None => {
            assert(w[gs.len() as int].0 == k);
        },
    }
}

/// The items of `items` filed under key `k`, in order.
pub open spec fn items_with_key<T>(items: Seq<(Seq<char>, T)>, k: Seq<char>) -> Seq<T>
    decreases items.len(),
{
    if items.len() == 0 {
        seq![]
    } else if items.last().0 == k {
        items_with_key(items.drop_last(), k).push(items.last().1)
    } else {
        items_with_key(items.drop_last(), k)
    }
}

proof fn lemma_key_position_same_keys<T>(
    gs: Seq<(Seq<char>, Seq<T>)>,
    ws: Seq<(Seq<char>, Seq<T>)>,
    k: Seq<char>,
    from: int,
)
    requires
        gs.len() == ws.len(),
        forall|j: int| 0 <= j < gs.len() ==> (#[trigger] gs[j]).0 == ws[j].0,
    ensures
        key_position(gs, k, from) == key_position(ws, k, from),
    decreases gs.len() - from,
{
    if !(from < 0 || from >= gs.len()) && gs[from].0 != k {
        lemma_key_position_same_keys(gs, ws, k, from + 1);
    }
}

/// Adding an item under `k2` appends it to the items of `k2` and leaves the
/// other keys' items alone.
pub proof fn lemma_group_insert_read<T>(gs: Seq<(Seq<char>, Seq<T>)>, k2: Seq<char>, x: T, k: Seq<char>)
    ensures
        group_items(group_insert(gs, k2, x), k) == (if k == k2 {
            Some(
                match group_items(gs, k) {
                    Some(v) => v,
                    None => Seq::<T>::empty(),
                }.push(x),
            )
        } else {
            group_items(gs, k)
        }),
{
    let w = group_insert(gs, k2, x);
    lemma_key_position(gs, k2, 0);
    lemma_key_position(gs, k, 0);
    lemma_key_position(w, k, 0);
    match key_position(gs, k2, 0) {
        Some(i) => {
            assert forall|j: int| 0 <= j < gs.len() implies (#[trigger] gs[j]).0 == w[j].0 by {}
            lemma_key_position_same_keys(gs, w, k, 0);
        },
        None => {
            assert(w.drop_last() =~= gs);
            if k == k2 {
                assert(w[gs.len() as int].0 == k);
                assert(w[gs.len() as int].1 =~= Seq::<T>::empty().push(x));
            } else {
                match key_position(gs, k, 0) {
                    Some(i) => {
                        assert(w[i] == gs[i]);
                    },
                    None => {
                        assert(forall|j: int| 0 <= j < gs.len() ==> w[j] == gs[j]);
                    },
                }
            }
        },
    }
}

/// Grouping files every item under its key: the items of a key are exactly
/// the items with that key, in the order they came, and a key has a group
/// exactly when some item has it.
pub proof fn lemma_grouped_items<T>(items: Seq<(Seq<char>, T)>, k: Seq<char>)
    ensures
        group_items(grouped(items), k) == (if items_with_key(items, k).len() > 0 {
            Some(items_with_key(items, k))
        } else {
            None
        }),
    decreases items.len(),
{
    if items.len() == 0 {
        lemma_key_position(grouped(items), k, 0);
    } else {
        let d = items.drop_last();
        lemma_grouped_items(d, k);
        lemma_group_insert_read(grouped(d), items.last().0, items.last().1, k);
        if items.last().0 == k {
            if items_with_key(d, k).len() == 0 {
                assert(items_with_key(d, k) =~= Seq::<T>::empty());
            }
        }
    }
}

} // verus!
