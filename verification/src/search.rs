//! Search across the cached catalogues of the profiles.

use vstd::prelude::*;

use crate::cache::ProfileCache;
use crate::group::Group;
use crate::keyed::Entry;
use crate::live::LiveStream;
use crate::series::SeriesItem;
use crate::text::{chars_of, contains, find_from_exec, trim, trim_str};
use crate::vods::VodStream;

verus! {

/// One hit: `kind` is `live`, `movie` or `show`.
#[derive(Debug)]
pub struct SearchResult {
    pub kind: String,
    pub id: u64,
    pub name: String,
    pub icon: String,
}

/// The hits of one profile.
#[derive(Debug)]
pub struct ProfileSearchResults {
    pub profile: String,
    pub results: Vec<SearchResult>,
}

/// (kind, id, name, icon).
pub open spec fn result_view(r: SearchResult) -> (Seq<char>, u64, Seq<char>, Seq<char>) {
    (r.kind@, r.id, r.name@, r.icon@)
}

pub open spec fn results_view(rs: Seq<SearchResult>) -> Seq<(Seq<char>, u64, Seq<char>, Seq<char>)> {
    rs.map_values(|r: SearchResult| result_view(r))
}

// ─── Lowercase ───────────────────────────────────────────────────────────────

/// What `str::to_lowercase` makes of a string (Unicode lowercase mapping).
pub uninterp spec fn lowercase(s: Seq<char>) -> Seq<char>;

/// `str::to_lowercase`. Its result is named by `lowercase`; nothing more is
/// claimed of it.
#[verifier::external_body]
pub(crate) fn to_lowercase(s: &str) -> (r: String)
    ensures
        r@ == lowercase(s@),
{
    s.to_lowercase()
}

// ─── String order ────────────────────────────────────────────────────────────

/// Lexicographic order of strings by character code (the order of `str`'s
/// `Ord`, since UTF-8 keeps code point order).
pub open spec fn str_lt(a: Seq<char>, b: Seq<char>) -> bool
    decreases a.len(),
{
    if a.len() == 0 {
        b.len() > 0
    } else if b.len() == 0 {
        false
    } else if a[0] != b[0] {
        (a[0] as u32) < (b[0] as u32)
    } else {
        str_lt(a.skip(1), b.skip(1))
    }
}

pub proof fn lemma_str_lt_irreflexive(a: Seq<char>)
    ensures
        !str_lt(a, a),
    decreases a.len(),
{
    if a.len() > 0 {
        lemma_str_lt_irreflexive(a.skip(1));
    }
}

pub proof fn lemma_str_lt_asymmetric(a: Seq<char>, b: Seq<char>)
    requires
        str_lt(a, b),
    ensures
        !str_lt(b, a),
    decreases a.len(),
{
    if a.len() > 0 && b.len() > 0 && a[0] == b[0] {
        lemma_str_lt_asymmetric(a.skip(1), b.skip(1));
    }
}

pub proof fn lemma_str_lt_transitive(a: Seq<char>, b: Seq<char>, c: Seq<char>)
    requires
        str_lt(a, b),
        str_lt(b, c),
    ensures
        str_lt(a, c),
    decreases a.len(),
{
    if a.len() > 0 && b.len() > 0 && c.len() > 0 && a[0] == b[0] && b[0] == c[0] {
        lemma_str_lt_transitive(a.skip(1), b.skip(1), c.skip(1));
    }
}

/// Whether `a` comes before `b`.
pub fn str_less(a: &str, b: &str) -> (r: bool)
    ensures
        r == str_lt(a@, b@),
{
    let va = chars_of(a);
    let vb = chars_of(b);
    let mut i: usize = 0;
    assert(va@.skip(0) =~= va@);
    assert(vb@.skip(0) =~= vb@);
    while i < va.len() && i < vb.len() && va[i] == vb[i]
        invariant
            i <= va.len(),
            i <= vb.len(),
            str_lt(va@, vb@) == str_lt(va@.skip(i as int), vb@.skip(i as int)),
        decreases va.len() - i,
    {
        assert(va@.skip(i as int).skip(1) =~= va@.skip(i + 1));
        assert(vb@.skip(i as int).skip(1) =~= vb@.skip(i + 1));
        i = i + 1;
    }
    if i == va.len() {
        i < vb.len()
    } else if i == vb.len() {
        false
    } else {
        (va[i] as u32) < (vb[i] as u32)
    }
}

// ─── Ordering of results ─────────────────────────────────────────────────────

/// `x` comes before `y`: by kind, then by name.
pub open spec fn result_lt(
    x: (Seq<char>, u64, Seq<char>, Seq<char>),
    y: (Seq<char>, u64, Seq<char>, Seq<char>),
) -> bool {
    str_lt(x.0, y.0) || (x.0 == y.0 && str_lt(x.2, y.2))
}

pub proof fn lemma_result_lt_asymmetric(
    x: (Seq<char>, u64, Seq<char>, Seq<char>),
    y: (Seq<char>, u64, Seq<char>, Seq<char>),
)
    requires
        result_lt(x, y),
    ensures
        !result_lt(y, x),
{
    if str_lt(x.0, y.0) {
        lemma_str_lt_asymmetric(x.0, y.0);
        if y.0 == x.0 {
            lemma_str_lt_irreflexive(x.0);
        }
    } else {
        lemma_str_lt_asymmetric(x.2, y.2);
        lemma_str_lt_irreflexive(x.0);
    }
}

pub proof fn lemma_result_lt_transitive(
    x: (Seq<char>, u64, Seq<char>, Seq<char>),
    y: (Seq<char>, u64, Seq<char>, Seq<char>),
    z: (Seq<char>, u64, Seq<char>, Seq<char>),
)
    requires
        result_lt(x, y),
        result_lt(y, z),
    ensures
        result_lt(x, z),
{
    if str_lt(x.0, y.0) && str_lt(y.0, z.0) {
        lemma_str_lt_transitive(x.0, y.0, z.0);
    } else if str_lt(x.0, y.0) {
    } else if str_lt(y.0, z.0) {
    } else {
        lemma_str_lt_transitive(x.2, y.2, z.2);
    }
}

/// `lt` is a strict order: asymmetric and transitive.
pub open spec fn strict_order<A>(lt: spec_fn(A, A) -> bool) -> bool {
    &&& forall|x: A, y: A| #[trigger] lt(x, y) ==> !lt(y, x)
    &&& forall|x: A, y: A, z: A| #[trigger] lt(x, y) && #[trigger] lt(y, z) ==> lt(x, z)
}

/// No element comes before one that precedes it.
pub open spec fn sorted_by<A>(s: Seq<A>, lt: spec_fn(A, A) -> bool) -> bool {
    forall|i: int, j: int| 0 <= i < j < s.len() ==> !lt(#[trigger] s[j], #[trigger] s[i])
}

/// First position at or after `from` holding an element after `x` (the
/// length when there is none).
pub open spec fn insert_position<A>(s: Seq<A>, x: A, lt: spec_fn(A, A) -> bool, from: int) -> int
    decreases s.len() - from,
{
    if from < 0 || from >= s.len() {
        s.len() as int
    } else if lt(x, s[from]) {
        from
    } else {
        insert_position(s, x, lt, from + 1)
    }
}

/// `s` with `x` inserted after every element that is not after it.
pub open spec fn sorted_insert<A>(s: Seq<A>, x: A, lt: spec_fn(A, A) -> bool) -> Seq<A> {
    s.insert(insert_position(s, x, lt, 0), x)
}

/// `s` sorted by insertion, element by element; equal elements keep their order.
pub open spec fn insertion_sort<A>(s: Seq<A>, lt: spec_fn(A, A) -> bool) -> Seq<A>
    decreases s.len(),
{
    if s.len() == 0 {
        seq![]
    } else {
        sorted_insert(insertion_sort(s.drop_last(), lt), s.last(), lt)
    }
}

pub proof fn lemma_insert_position<A>(s: Seq<A>, x: A, lt: spec_fn(A, A) -> bool, from: int)
    requires
        0 <= from <= s.len(),
    ensures
        from <= insert_position(s, x, lt, from) <= s.len(),
        forall|k: int| from <= k < insert_position(s, x, lt, from) ==> !lt(x, #[trigger] s[k]),
        insert_position(s, x, lt, from) < s.len() ==> lt(x, s[insert_position(s, x, lt, from)]),
    decreases s.len() - from,
{
    if from < s.len() && !lt(x, s[from]) {
        lemma_insert_position(s, x, lt, from + 1);
    }
}

/// Inserting keeps a sorted sequence sorted and adds exactly the new element.
pub proof fn lemma_sorted_insert<A>(s: Seq<A>, x: A, lt: spec_fn(A, A) -> bool)
    requires
        strict_order(lt),
        sorted_by(s, lt),
    ensures
        sorted_by(sorted_insert(s, x, lt), lt),
        sorted_insert(s, x, lt).to_multiset() == s.to_multiset().insert(x),
{
    let p = insert_position(s, x, lt, 0);
    lemma_insert_position(s, x, lt, 0);
    let w = sorted_insert(s, x, lt);
    assert forall|i: int, j: int| 0 <= i < j < w.len() implies !lt(
        #[trigger] w[j],
        #[trigger] w[i],
    ) by {
        if j < p {
            assert(w[i] == s[i] && w[j] == s[j]);
        } else if i > p {
            assert(w[i] == s[i - 1] && w[j] == s[j - 1]);
        } else if j == p {
            assert(w[i] == s[i] && w[j] == x);
        } else if i == p {
            assert(w[i] == x && w[j] == s[j - 1]);
            if lt(s[j - 1], x) {
                assert(lt(x, s[p]));
                if j - 1 != p {
                    assert(!lt(s[j - 1], s[p]));
                }
            }
        } else {
            assert(w[i] == s[i] && w[j] == s[j - 1]);
        }
    }
    vstd::seq_lib::to_multiset_insert(s, p, x);
}

/// Insertion sort orders the sequence and keeps every element of it.
pub proof fn lemma_insertion_sort<A>(s: Seq<A>, lt: spec_fn(A, A) -> bool)
    requires
        strict_order(lt),
    ensures
        sorted_by(insertion_sort(s, lt), lt),
        insertion_sort(s, lt).to_multiset() == s.to_multiset(),
    decreases s.len(),
{
    if s.len() == 0 {
        assert(s =~= Seq::<A>::empty());
        assert(insertion_sort(s, lt) =~= s);
    } else {
        let d = s.drop_last();
        lemma_insertion_sort(d, lt);
        lemma_sorted_insert(insertion_sort(d, lt), s.last(), lt);
        assert(d.push(s.last()) =~= s);
        vstd::seq_lib::to_multiset_build(d, s.last());
        assert(insertion_sort(s, lt).to_multiset() =~= s.to_multiset());
    }
}

/// The order of results: by kind, then by name.
pub open spec fn result_order() -> spec_fn(
    (Seq<char>, u64, Seq<char>, Seq<char>),
    (Seq<char>, u64, Seq<char>, Seq<char>),
) -> bool {
    |x: (Seq<char>, u64, Seq<char>, Seq<char>), y: (Seq<char>, u64, Seq<char>, Seq<char>)|
        result_lt(x, y)
}

pub proof fn lemma_result_order()
    ensures
        strict_order(result_order()),
{
    assert forall|x: (Seq<char>, u64, Seq<char>, Seq<char>), y: (Seq<char>, u64, Seq<char>, Seq<char>)|
        #[trigger] result_order()(x, y) implies !result_order()(y, x) by {
        lemma_result_lt_asymmetric(x, y);
    }
    assert forall|
        x: (Seq<char>, u64, Seq<char>, Seq<char>),
        y: (Seq<char>, u64, Seq<char>, Seq<char>),
        z: (Seq<char>, u64, Seq<char>, Seq<char>),
    | #[trigger] result_order()(x, y) && #[trigger] result_order()(y, z) implies result_order()(
        x,
        z,
    ) by {
        lemma_result_lt_transitive(x, y, z);
    }
}

/// The results sorted by kind then name.
pub open spec fn sort_results(s: Seq<(Seq<char>, u64, Seq<char>, Seq<char>)>) -> Seq<
    (Seq<char>, u64, Seq<char>, Seq<char>),
> {
    insertion_sort(s, result_order())
}

/// The hits come out ordered by kind then name, and none is lost or added.
pub proof fn lemma_sort_results(s: Seq<(Seq<char>, u64, Seq<char>, Seq<char>)>)
    ensures
        sorted_by(sort_results(s), result_order()),
        sort_results(s).to_multiset() == s.to_multiset(),
{
    lemma_result_order();
    lemma_insertion_sort(s, result_order());
}

fn result_less(x: &SearchResult, y: &SearchResult) -> (r: bool)
    ensures
        r == result_lt(result_view(*x), result_view(*y)),
{
    str_less(x.kind.as_str(), y.kind.as_str()) || (crate::text::str_eq(
        x.kind.as_str(),
        y.kind.as_str(),
    ) && str_less(x.name.as_str(), y.name.as_str()))
}

/// Inserts `x` after every result that is not after it.
fn insert_result(v: &mut Vec<SearchResult>, x: SearchResult)
    ensures
        results_view(final(v)@) == sorted_insert(results_view(old(v)@), result_view(x), result_order()),
{
    let ghost s = results_view(v@);
    let mut p: usize = 0;
    while p < v.len() && !result_less(&x, &v[p])
        invariant
            p <= v.len(),
            s == results_view(v@),
            insert_position(s, result_view(x), result_order(), 0) == insert_position(
                s,
                result_view(x),
                result_order(),
                p as int,
            ),
        decreases v.len() - p,
    {
        p = p + 1;
    }
    let ghost xv = result_view(x);
    v.insert(p, x);
    assert(results_view(v@) =~= s.insert(p as int, xv));
}

// ─── Candidates ──────────────────────────────────────────────────────────────

/// (id, name, icon) of a channel.
pub open spec fn live_row(s: LiveStream) -> (u64, Seq<char>, Seq<char>) {
    (s.stream_id, s.name@, s.stream_icon@)
}

/// (id, name, icon) of a film.
pub open spec fn vod_row(s: VodStream) -> (u64, Seq<char>, Seq<char>) {
    (s.stream_id, s.name@, s.stream_icon@)
}

/// (id, name, cover) of a series.
pub open spec fn series_row(s: SeriesItem) -> (u64, Seq<char>, Seq<char>) {
    (s.series_id, s.name@, s.cover@)
}

pub open spec fn live_rows(items: Seq<LiveStream>) -> Seq<(u64, Seq<char>, Seq<char>)> {
    items.map_values(|s: LiveStream| live_row(s))
}

pub open spec fn vod_rows(items: Seq<VodStream>) -> Seq<(u64, Seq<char>, Seq<char>)> {
    items.map_values(|s: VodStream| vod_row(s))
}

pub open spec fn series_rows(items: Seq<SeriesItem>) -> Seq<(u64, Seq<char>, Seq<char>)> {
    items.map_values(|s: SeriesItem| series_row(s))
}

/// (id, name, icon) of every channel, category by category.
pub open spec fn live_candidates(gs: Seq<Group<LiveStream>>) -> Seq<(u64, Seq<char>, Seq<char>)>
    decreases gs.len(),
{
    if gs.len() == 0 {
        seq![]
    } else {
        live_candidates(gs.drop_last()) + live_rows(gs.last().items@)
    }
}

/// (id, name, icon) of every film, category by category.
pub open spec fn vod_candidates(gs: Seq<Group<VodStream>>) -> Seq<(u64, Seq<char>, Seq<char>)>
    decreases gs.len(),
{
    if gs.len() == 0 {
        seq![]
    } else {
        vod_candidates(gs.drop_last()) + vod_rows(gs.last().items@)
    }
}

/// (id, name, cover) of every series, category by category.
pub open spec fn series_candidates(gs: Seq<Group<SeriesItem>>) -> Seq<(u64, Seq<char>, Seq<char>)>
    decreases gs.len(),
{
    if gs.len() == 0 {
        seq![]
    } else {
        series_candidates(gs.drop_last()) + series_rows(gs.last().items@)
    }
}

/// Some entry of `r` has id `id`.
pub open spec fn has_id(r: Seq<(u64, Seq<char>, Seq<char>)>, id: u64) -> bool {
    exists|j: int| 0 <= j < r.len() && (#[trigger] r[j]).0 == id
}

/// The candidates whose lowercased name contains `q`, each id kept at its
/// first match only.
pub open spec fn first_matches(xs: Seq<(u64, Seq<char>, Seq<char>)>, q: Seq<char>) -> Seq<
    (u64, Seq<char>, Seq<char>),
>
    decreases xs.len(),
{
    if xs.len() == 0 {
        seq![]
    } else {
        let r = first_matches(xs.drop_last(), q);
        let x = xs.last();
        if contains(lowercase(x.1), q) && !has_id(r, x.0) {
            r.push(x)
        } else {
            r
        }
    }
}

/// Every kept candidate matches the query and is one of the candidates, and
/// no id is kept twice.
pub proof fn lemma_first_matches(xs: Seq<(u64, Seq<char>, Seq<char>)>, q: Seq<char>)
    ensures
        forall|i: int|
            0 <= i < first_matches(xs, q).len() ==> contains(
                lowercase((#[trigger] first_matches(xs, q)[i]).1),
                q,
            ) && xs.contains(first_matches(xs, q)[i]),
        forall|i: int, j: int|
            0 <= i < j < first_matches(xs, q).len() ==> (#[trigger] first_matches(xs, q)[i]).0
                != (#[trigger] first_matches(xs, q)[j]).0,
    decreases xs.len(),
{
    if xs.len() > 0 {
        let d = xs.drop_last();
        lemma_first_matches(d, q);
        let r = first_matches(d, q);
        assert forall|i: int| 0 <= i < r.len() implies xs.contains(#[trigger] r[i]) by {
            let k = choose|k: int| 0 <= k < d.len() && d[k] == r[i];
            assert(xs[k] == r[i]);
        }
        assert(xs[xs.len() - 1] == xs.last());
    }
}

/// No hit is lost but for a repeated id: every candidate whose lowercased
/// name contains the query has its id among the kept ones, whatever its
/// name.
pub proof fn lemma_first_matches_complete(xs: Seq<(u64, Seq<char>, Seq<char>)>, q: Seq<char>)
    ensures
        forall|i: int|
            0 <= i < xs.len() && contains(lowercase((#[trigger] xs[i]).1), q) ==> exists|j: int|
                0 <= j < first_matches(xs, q).len() && first_matches(xs, q)[j].0 == xs[i].0,
    decreases xs.len(),
{
    if xs.len() > 0 {
        let d = xs.drop_last();
        lemma_first_matches_complete(d, q);
        let r = first_matches(d, q);
        let out = first_matches(xs, q);
        assert(r.len() <= out.len() && forall|j: int| 0 <= j < r.len() ==> out[j] == r[j]);
        assert forall|i: int|
            0 <= i < xs.len() && contains(lowercase((#[trigger] xs[i]).1), q) implies exists|j: int|
                0 <= j < out.len() && out[j].0 == xs[i].0 by {
            if i < d.len() {
                assert(d[i] == xs[i]);
                let j = choose|j: int| 0 <= j < r.len() && r[j].0 == d[i].0;
                assert(out[j] == r[j]);
            } else {
                assert(xs[i] == xs.last());
                if has_id(r, xs.last().0) {
                    let j = choose|j: int| 0 <= j < r.len() && (#[trigger] r[j]).0 == xs.last().0;
                    assert(out[j] == r[j]);
                } else {
                    assert(out[r.len() as int] == xs.last());
                }
            }
        }
    }
}

pub open spec fn tagged(kind: Seq<char>, xs: Seq<(u64, Seq<char>, Seq<char>)>) -> Seq<
    (Seq<char>, u64, Seq<char>, Seq<char>),
> {
    xs.map_values(|x: (u64, Seq<char>, Seq<char>)| (kind, x.0, x.1, x.2))
}

/// The hits of a profile before sorting: channels, then films, then series.
pub open spec fn profile_hits(pc: ProfileCache, q: Seq<char>) -> Seq<
    (Seq<char>, u64, Seq<char>, Seq<char>),
> {
    tagged("live"@, first_matches(live_candidates(pc.live_streams@), q)) + tagged(
        "movie"@,
        first_matches(vod_candidates(pc.vod_streams@), q),
    ) + tagged("show"@, first_matches(series_candidates(pc.series_items@), q))
}

/// An item that search may return.
pub struct Candidate {
    pub id: u64,
    pub name: String,
    pub icon: String,
}

pub open spec fn candidates_view(cs: Seq<Candidate>) -> Seq<(u64, Seq<char>, Seq<char>)> {
    cs.map_values(|c: Candidate| (c.id, c.name@, c.icon@))
}

fn collect_live(gs: &Vec<Group<LiveStream>>) -> (r: Vec<Candidate>)
    ensures
        candidates_view(r@) == live_candidates(gs@),
{
    let mut r: Vec<Candidate> = Vec::new();
    let mut g: usize = 0;
    while g < gs.len()
        invariant
            g <= gs.len(),
            candidates_view(r@) == live_candidates(gs@.take(g as int)),
        decreases gs.len() - g,
    {
        let ghost base = candidates_view(r@);
        let items = &gs[g].items;
        let mut i: usize = 0;
        while i < items.len()
            invariant
                i <= items.len(),
                g < gs.len(),
                items == &gs@[g as int].items,
                candidates_view(r@) == base + live_rows(items@.take(i as int)),
            decreases items.len() - i,
        {
            let ghost before = candidates_view(r@);
            r.push(
                Candidate {
                    id: items[i].stream_id,
                    name: items[i].name.clone(),
                    icon: items[i].stream_icon.clone(),
                },
            );
            assert(items@.take(i + 1) =~= items@.take(i as int).push(items@[i as int]));
            assert(candidates_view(r@) =~= before.push(live_row(items@[i as int])));
            assert(live_rows(items@.take(i + 1)) =~= live_rows(items@.take(i as int)).push(live_row(items@[i as int])));
            i = i + 1;
        }
        assert(items@.take(items.len() as int) =~= items@);
        assert(gs@.take(g + 1).drop_last() =~= gs@.take(g as int));
        g = g + 1;
    }
    assert(gs@.take(gs.len() as int) =~= gs@);
    r
}

fn collect_vod(gs: &Vec<Group<VodStream>>) -> (r: Vec<Candidate>)
    ensures
        candidates_view(r@) == vod_candidates(gs@),
{
    let mut r: Vec<Candidate> = Vec::new();
    let mut g: usize = 0;
    while g < gs.len()
        invariant
            g <= gs.len(),
            candidates_view(r@) == vod_candidates(gs@.take(g as int)),
        decreases gs.len() - g,
    {
        let ghost base = candidates_view(r@);
        let items = &gs[g].items;
        let mut i: usize = 0;
        while i < items.len()
            invariant
                i <= items.len(),
                g < gs.len(),
                items == &gs@[g as int].items,
                candidates_view(r@) == base + vod_rows(items@.take(i as int)),
            decreases items.len() - i,
        {
            let ghost before = candidates_view(r@);
            r.push(
                Candidate {
                    id: items[i].stream_id,
                    name: items[i].name.clone(),
                    icon: items[i].stream_icon.clone(),
                },
            );
            assert(items@.take(i + 1) =~= items@.take(i as int).push(items@[i as int]));
            assert(candidates_view(r@) =~= before.push(vod_row(items@[i as int])));
            assert(vod_rows(items@.take(i + 1)) =~= vod_rows(items@.take(i as int)).push(vod_row(items@[i as int])));
            i = i + 1;
        }
        assert(items@.take(items.len() as int) =~= items@);
        assert(gs@.take(g + 1).drop_last() =~= gs@.take(g as int));
        g = g + 1;
    }
    assert(gs@.take(gs.len() as int) =~= gs@);
    r
}

fn collect_series(gs: &Vec<Group<SeriesItem>>) -> (r: Vec<Candidate>)
    ensures
        candidates_view(r@) == series_candidates(gs@),
{
    let mut r: Vec<Candidate> = Vec::new();
    let mut g: usize = 0;
    while g < gs.len()
        invariant
            g <= gs.len(),
            candidates_view(r@) == series_candidates(gs@.take(g as int)),
        decreases gs.len() - g,
    {
        let ghost base = candidates_view(r@);
        let items = &gs[g].items;
        let mut i: usize = 0;
        while i < items.len()
            invariant
                i <= items.len(),
                g < gs.len(),
                items == &gs@[g as int].items,
                candidates_view(r@) == base + series_rows(items@.take(i as int)),
            decreases items.len() - i,
        {
            let ghost before = candidates_view(r@);
            r.push(
                Candidate {
                    id: items[i].series_id,
                    name: items[i].name.clone(),
                    icon: items[i].cover.clone(),
                },
            );
            assert(items@.take(i + 1) =~= items@.take(i as int).push(items@[i as int]));
            assert(candidates_view(r@) =~= before.push(series_row(items@[i as int])));
            assert(series_rows(items@.take(i + 1)) =~= series_rows(items@.take(i as int)).push(series_row(items@[i as int])));
            i = i + 1;
        }
        assert(items@.take(items.len() as int) =~= items@);
        assert(gs@.take(g + 1).drop_last() =~= gs@.take(g as int));
        g = g + 1;
    }
    assert(gs@.take(gs.len() as int) =~= gs@);
    r
}

/// Whether `n` occurs in `h`.
pub fn str_contains(h: &str, n: &str) -> (r: bool)
    ensures
        r == contains(h@, n@),
{
    let hv = chars_of(h);
    let nv = chars_of(n);
    find_from_exec(&hv, &nv, 0).is_some()
}

/// Appends to `out`, tagged `kind`, the candidates whose lowercased name
/// contains `q`, each id once.
fn push_first_matches(out: &mut Vec<SearchResult>, cs: &Vec<Candidate>, q: &str, kind: &str)
    ensures
        results_view(final(out)@) == results_view(old(out)@) + tagged(
            kind@,
            first_matches(candidates_view(cs@), q@),
        ),
{
    let ghost cv = candidates_view(cs@);
    let mut found: Vec<Candidate> = Vec::new();
    let mut i: usize = 0;
    assert(cv.take(0) =~= Seq::<(u64, Seq<char>, Seq<char>)>::empty());
    while i < cs.len()
        invariant
            i <= cs.len(),
            cv == candidates_view(cs@),
            candidates_view(found@) == first_matches(cv.take(i as int), q@),
        decreases cs.len() - i,
    {
        let ghost prev = candidates_view(found@);
        assert(cv.take(i + 1).drop_last() =~= cv.take(i as int));
        assert(cv.take(i + 1).last() == cv[i as int]);
        let lower = to_lowercase(cs[i].name.as_str());
        if str_contains(lower.as_str(), q) {
            let mut seen = false;
            let mut j: usize = 0;
            while j < found.len()
                invariant
                    j <= found.len(),
                    i < cs.len(),
                    prev == candidates_view(found@),
                    !seen ==> forall|k: int| 0 <= k < j ==> prev[k].0 != cs@[i as int].id,
                    seen ==> has_id(prev, cs@[i as int].id),
                decreases found.len() - j,
            {
                if found[j].id == cs[i].id {
                    seen = true;
                    assert(prev[j as int].0 == cs@[i as int].id);
                }
                j = j + 1;
            }
            if !seen {
                found.push(
                    Candidate { id: cs[i].id, name: cs[i].name.clone(), icon: cs[i].icon.clone() },
                );
                assert(candidates_view(found@) =~= prev.push(cv[i as int]));
            }
        }
        i = i + 1;
    }
    assert(cv.take(cs.len() as int) =~= cv);
    let ghost start = results_view(out@);
    let mut k: usize = 0;
    while k < found.len()
        invariant
            k <= found.len(),
            results_view(out@) == start + tagged(kind@, candidates_view(found@).take(k as int)),
        decreases found.len() - k,
    {
        let ghost before = results_view(out@);
        let ghost row = candidates_view(found@)[k as int];
        out.push(
            SearchResult {
                kind: String::from_str(kind),
                id: found[k].id,
                name: found[k].name.clone(),
                icon: found[k].icon.clone(),
            },
        );
        assert(results_view(out@) =~= before.push((kind@, row.0, row.1, row.2)));
        assert(candidates_view(found@).take(k + 1) =~= candidates_view(found@).take(k as int).push(
            row,
        ));
        assert(tagged(kind@, candidates_view(found@).take(k + 1)) =~= tagged(
            kind@,
            candidates_view(found@).take(k as int),
        ).push((kind@, row.0, row.1, row.2)));
        assert(results_view(out@) =~= start + tagged(kind@, candidates_view(found@).take(k + 1)));
        k = k + 1;
    }
    assert(candidates_view(found@).take(found.len() as int) =~= candidates_view(found@));
}

/// The hits of one profile for the lowercase query `q`: channels, films and
/// series whose lowercased name contains `q`, each id once per kind, sorted
/// by kind then name.
pub fn search_profile_cache(pc: &ProfileCache, q: &str) -> (r: Vec<SearchResult>)
    ensures
        results_view(r@) == sort_results(profile_hits(*pc, q@)),
{
    let mut hits: Vec<SearchResult> = Vec::new();
    let live = collect_live(&pc.live_streams);
    let vods = collect_vod(&pc.vod_streams);
    let shows = collect_series(&pc.series_items);
    push_first_matches(&mut hits, &live, q, "live");
    push_first_matches(&mut hits, &vods, q, "movie");
    push_first_matches(&mut hits, &shows, q, "show");
    let ghost hv = results_view(hits@);
    assert(hv =~= profile_hits(*pc, q@));
    let mut sorted: Vec<SearchResult> = Vec::new();
    let mut remaining = hits;
    let mut taken: Vec<SearchResult> = Vec::new();
    let n = remaining.len();
    let mut i: usize = 0;
    while i < n
        invariant
            i <= n,
            n == hv.len(),
            remaining.len() == n - i,
            results_view(remaining@) == hv.skip(i as int),
            results_view(sorted@) == sort_results(hv.take(i as int)),
        decreases n - i,
    {
        let ghost rv = remaining@;
        let x = remaining.remove(0);
        assert(x == rv[0]);
        assert(results_view(rv)[0] == result_view(x));
        assert(results_view(remaining@) =~= results_view(rv).drop_first());
        assert(hv.skip(i + 1) =~= hv.skip(i as int).drop_first());
        assert(hv.take(i + 1).drop_last() =~= hv.take(i as int));
        assert(hv.take(i + 1).last() == result_view(x));
        insert_result(&mut sorted, x);
        i = i + 1;
    }
    assert(hv.take(n as int) =~= hv);
    sorted
}


// ─── All profiles ────────────────────────────────────────────────────────────

/// (profile, hits) of one profile's results.
pub open spec fn profile_results_view(p: ProfileSearchResults) -> (
    Seq<char>,
    Seq<(Seq<char>, u64, Seq<char>, Seq<char>)>,
) {
    (p.profile@, results_view(p.results@))
}

pub open spec fn profiles_view(ps: Seq<ProfileSearchResults>) -> Seq<
    (Seq<char>, Seq<(Seq<char>, u64, Seq<char>, Seq<char>)>),
> {
    ps.map_values(|p: ProfileSearchResults| profile_results_view(p))
}

/// The order of profiles: by name.
pub open spec fn profile_order() -> spec_fn(
    (Seq<char>, Seq<(Seq<char>, u64, Seq<char>, Seq<char>)>),
    (Seq<char>, Seq<(Seq<char>, u64, Seq<char>, Seq<char>)>),
) -> bool {
    |
        x: (Seq<char>, Seq<(Seq<char>, u64, Seq<char>, Seq<char>)>),
        y: (Seq<char>, Seq<(Seq<char>, u64, Seq<char>, Seq<char>)>),
    | str_lt(x.0, y.0)
}

pub proof fn lemma_profile_order()
    ensures
        strict_order(profile_order()),
{
    assert forall|
        x: (Seq<char>, Seq<(Seq<char>, u64, Seq<char>, Seq<char>)>),
        y: (Seq<char>, Seq<(Seq<char>, u64, Seq<char>, Seq<char>)>),
    | #[trigger] profile_order()(x, y) implies !profile_order()(y, x) by {
        lemma_str_lt_asymmetric(x.0, y.0);
    }
    assert forall|
        x: (Seq<char>, Seq<(Seq<char>, u64, Seq<char>, Seq<char>)>),
        y: (Seq<char>, Seq<(Seq<char>, u64, Seq<char>, Seq<char>)>),
        z: (Seq<char>, Seq<(Seq<char>, u64, Seq<char>, Seq<char>)>),
    | #[trigger] profile_order()(x, y) && #[trigger] profile_order()(y, z) implies profile_order()(
        x,
        z,
    ) by {
        lemma_str_lt_transitive(x.0, y.0, z.0);
    }
}

/// (profile, sorted hits) of each cached profile with at least one hit, in
/// table order.
pub open spec fn profiles_with_hits(es: Seq<Entry<ProfileCache>>, q: Seq<char>) -> Seq<
    (Seq<char>, Seq<(Seq<char>, u64, Seq<char>, Seq<char>)>),
>
    decreases es.len(),
{
    if es.len() == 0 {
        seq![]
    } else {
        let r = profiles_with_hits(es.drop_last(), q);
        let hits = sort_results(profile_hits(es.last().value, q));
        if hits.len() > 0 {
            r.push((es.last().key@, hits))
        } else {
            r
        }
    }
}

/// What a search for `query` over every cached profile answers: nothing for
/// a blank query; else the profiles with hits for the lowercased query,
/// ordered by profile name.
pub open spec fn search_answer(es: Seq<Entry<ProfileCache>>, query: Seq<char>) -> Seq<
    (Seq<char>, Seq<(Seq<char>, u64, Seq<char>, Seq<char>)>),
> {
    if trim(query).len() == 0 {
        seq![]
    } else {
        insertion_sort(profiles_with_hits(es, lowercase(query)), profile_order())
    }
}

proof fn lemma_profiles_with_hits_nonempty(es: Seq<Entry<ProfileCache>>, q: Seq<char>)
    ensures
        forall|i: int|
            0 <= i < profiles_with_hits(es, q).len() ==> (#[trigger] profiles_with_hits(es, q)[i]).1.len()
                > 0,
    decreases es.len(),
{
    if es.len() > 0 {
        lemma_profiles_with_hits_nonempty(es.drop_last(), q);
        let r = profiles_with_hits(es.drop_last(), q);
        let hits = sort_results(profile_hits(es.last().value, q));
        if hits.len() > 0 {
            let w = r.push((es.last().key@, hits));
            assert forall|i: int| 0 <= i < w.len() implies (#[trigger] w[i]).1.len() > 0 by {
                if i < r.len() {
                    assert(w[i] == r[i]);
                }
            }
        }
    }
}

/// The answer to a search lists profiles by name, each with at least one
/// hit, and no profile with hits is lost or added by the ordering.
pub proof fn lemma_search_answer(es: Seq<Entry<ProfileCache>>, query: Seq<char>)
    ensures
        sorted_by(search_answer(es, query), profile_order()),
        forall|i: int|
            0 <= i < search_answer(es, query).len() ==> (#[trigger] search_answer(es, query)[i]).1.len()
                > 0,
        trim(query).len() > 0 ==> search_answer(es, query).to_multiset() == profiles_with_hits(
            es,
            lowercase(query),
        ).to_multiset(),
{
    if trim(query).len() > 0 {
        let h = profiles_with_hits(es, lowercase(query));
        lemma_profile_order();
        lemma_insertion_sort(h, profile_order());
        lemma_profiles_with_hits_nonempty(es, lowercase(query));
        let a = search_answer(es, query);
        assert forall|i: int| 0 <= i < a.len() implies (#[trigger] a[i]).1.len() > 0 by {
            a.to_multiset_ensures();
            h.to_multiset_ensures();
            assert(a.contains(a[i]));
            assert(a.to_multiset().count(a[i]) > 0);
            assert(h.to_multiset().count(a[i]) > 0);
            assert(h.contains(a[i]));
            let j = choose|j: int| 0 <= j < h.len() && h[j] == a[i];
            assert(h[j].1.len() > 0);
        }
    } else {
        assert(search_answer(es, query) =~= Seq::<(Seq<char>, Seq<(Seq<char>, u64, Seq<char>, Seq<char>)>)>::empty());
    }
}

/// Every channel of a cached profile whose lowercased name contains the
/// query is answered by a `live` hit with its id, even when another channel
/// has the same name.
pub proof fn lemma_search_finds_every_live_channel(pc: ProfileCache, q: Seq<char>, i: int)
    requires
        0 <= i < live_candidates(pc.live_streams@).len(),
        contains(lowercase(live_candidates(pc.live_streams@)[i].1), q),
    ensures
        exists|j: int|
            0 <= j < sort_results(profile_hits(pc, q)).len() && sort_results(profile_hits(pc, q))[j].0
                == "live"@ && sort_results(profile_hits(pc, q))[j].1 == live_candidates(
                pc.live_streams@,
            )[i].0,
{
    let xs = live_candidates(pc.live_streams@);
    let fm = first_matches(xs, q);
    lemma_first_matches_complete(xs, q);
    assert(contains(lowercase(xs[i].1), q));
    let j = choose|j: int| 0 <= j < fm.len() && fm[j].0 == xs[i].0;
    let hits = profile_hits(pc, q);
    let t = tagged("live"@, fm);
    assert(hits[j] == t[j]);
    let h = hits[j];
    lemma_sort_results(hits);
    let sorted = sort_results(hits);
    hits.to_multiset_ensures();
    sorted.to_multiset_ensures();
    assert(hits.contains(h));
    assert(sorted.to_multiset().count(h) > 0);
    assert(sorted.contains(h));
    let k = choose|k: int| 0 <= k < sorted.len() && sorted[k] == h;
    assert(sorted[k].0 == "live"@ && sorted[k].1 == xs[i].0);
}

/// Inserts `x` after every profile whose name is not after its name.
fn insert_profile(v: &mut Vec<ProfileSearchResults>, x: ProfileSearchResults)
    ensures
        profiles_view(final(v)@) == sorted_insert(
            profiles_view(old(v)@),
            profile_results_view(x),
            profile_order(),
        ),
{
    let ghost s = profiles_view(v@);
    let mut p: usize = 0;
    while p < v.len() && !str_less(x.profile.as_str(), v[p].profile.as_str())
        invariant
            p <= v.len(),
            s == profiles_view(v@),
            insert_position(s, profile_results_view(x), profile_order(), 0) == insert_position(
                s,
                profile_results_view(x),
                profile_order(),
                p as int,
            ),
        decreases v.len() - p,
    {
        p = p + 1;
    }
    let ghost xv = profile_results_view(x);
    v.insert(p, x);
    assert(profiles_view(v@) =~= s.insert(p as int, xv));
}

/// Searches every cached profile for `query`: each profile with hits, with
/// its hits ordered by kind then name, the profiles ordered by name.
pub fn search_all_profiles(caches: &Vec<Entry<ProfileCache>>, query: &str) -> (r: Vec<
    ProfileSearchResults,
>)
    ensures
        profiles_view(r@) == search_answer(caches@, query@),
{
    let trimmed = trim_str(query);
    if trimmed.as_str().is_empty() {
        return Vec::new();
    }
    let q = to_lowercase(query);
    let ghost qv = q@;
    let mut found: Vec<ProfileSearchResults> = Vec::new();
    let mut i: usize = 0;
    while i < caches.len()
        invariant
            i <= caches.len(),
            qv == q@,
            profiles_view(found@) == profiles_with_hits(caches@.take(i as int), qv),
        decreases caches.len() - i,
    {
        assert(caches@.take(i + 1).drop_last() =~= caches@.take(i as int));
        assert(caches@.take(i + 1).last() == caches@[i as int]);
        let hits = search_profile_cache(&caches[i].value, q.as_str());
        if hits.len() > 0 {
            let ghost before = profiles_view(found@);
            let entry = ProfileSearchResults { profile: caches[i].key.clone(), results: hits };
            found.push(entry);
            assert(profiles_view(found@) =~= before.push(profile_results_view(entry)));
        }
        i = i + 1;
    }
    assert(caches@.take(caches.len() as int) =~= caches@);
    let ghost fv = profiles_view(found@);
    let mut sorted: Vec<ProfileSearchResults> = Vec::new();
    let mut remaining = found;
    let n = remaining.len();
    let mut k: usize = 0;
    while k < n
        invariant
            k <= n,
            n == fv.len(),
            remaining.len() == n - k,
            profiles_view(remaining@) == fv.skip(k as int),
            profiles_view(sorted@) == insertion_sort(fv.take(k as int), profile_order()),
        decreases n - k,
    {
        let ghost rv = remaining@;
        let x = remaining.remove(0);
        assert(x == rv[0]);
        assert(profiles_view(rv)[0] == profile_results_view(x));
        assert(profiles_view(remaining@) =~= profiles_view(rv).drop_first());
        assert(fv.skip(k + 1) =~= fv.skip(k as int).drop_first());
        assert(fv.take(k + 1).drop_last() =~= fv.take(k as int));
        assert(fv.take(k + 1).last() == profile_results_view(x));
        insert_profile(&mut sorted, x);
        k = k + 1;
    }
    assert(fv.take(n as int) =~= fv);
    sorted
}

} // verus!
