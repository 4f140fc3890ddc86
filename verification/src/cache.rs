//! Cache freshness rules and the cached per-profile data.

use vstd::prelude::*;

use crate::group::{Group, group_items, group_set, groups_view, find_group, set_group, lemma_key_position};
use crate::keyed::{Entry, entries_view, find_entry, set_entry, value_of, with_entry, lemma_position_of, position_of};
use crate::live::LiveStream;
use crate::series::SeriesItem;
use crate::text::{decimal_string, dec, push_str};
use crate::vods::VodStream;
use crate::epg::EpgListing;

verus! {

/// Time to live of cached category lists, in seconds.
pub const CATEGORY_TTL: i64 = 21600;

/// Time to live of cached stream lists, in seconds.
pub const STREAM_TTL: i64 = 21600;

/// Time to live of cached programme guides, in seconds.
pub const EPG_TTL: i64 = 7200;

/// Time to live of a cached M3U8 playlist, in seconds.
pub const M3U8_TTL: i64 = 21600;

/// `std::time::SystemTime`, an opaque point in wall-clock time.
#[verifier::external_type_specification]
#[verifier::external_body]
pub struct ExSystemTime(std::time::SystemTime);

/// `SystemTime::now()`: the current wall-clock time. Nothing is claimed of
/// the value.
#[verifier::external_body]
fn system_now() -> std::time::SystemTime {
    std::time::SystemTime::now()
}

/// `SystemTime::duration_since(UNIX_EPOCH)`, with its error (a time before
/// the epoch) turned into `None`. Nothing is claimed of the value.
#[verifier::external_body]
fn since_unix_epoch(t: std::time::SystemTime) -> Option<std::time::Duration> {
    t.duration_since(std::time::UNIX_EPOCH).ok()
}

/// `Duration::as_secs`: the whole seconds of a duration. The duration is
/// opaque here, so nothing is claimed of the value.
#[verifier::external_body]
fn whole_seconds(d: &std::time::Duration) -> u64 {
    d.as_secs()
}

/// Unix time from the clock's whole seconds since the epoch: the seconds
/// cut to `i64` as Rust's `as` does, or 0 when the clock is before the epoch.
pub open spec fn spec_timestamp(secs: Option<u64>) -> i64 {
    match secs {
        Some(s) => s as i64,
        None => 0,
    }
}

/// Unix time from the clock's whole seconds since the epoch (`None` when the
/// clock is before the epoch).
pub fn timestamp_of(secs: Option<u64>) -> (r: i64)
    ensures
        r == spec_timestamp(secs),
        secs matches Some(s) ==> (s <= i64::MAX ==> r == s),
        secs is None ==> r == 0,
{
    match secs {
        Some(s) => #[verifier::truncate] (s as i64),
        None => 0,
    }
}

/// Seconds since the Unix epoch (0 when the clock is before it), read as
/// `i64`: `timestamp_of` of the whole seconds the clock gives. Which
/// seconds those are is the clock's.
pub fn now_ts() -> (r: i64)
    ensures
        exists|secs: Option<u64>| r == spec_timestamp(secs),
{
    let secs = match since_unix_epoch(system_now()) {
        Some(d) => Some(whole_seconds(&d)),
        None => None,
    };
    timestamp_of(secs)
}

/// A value stamped at `ts` is fresh at time `now` for `ttl` seconds: it was
/// stamped (`ts > 0`) and its age is below the time to live.
pub open spec fn fresh_at(ts: int, ttl: int, now: int) -> bool {
    ts > 0 && now - ts < ttl
}

/// Whether a value stamped at `ts` is still fresh at `now`.
pub fn is_fresh_at(ts: i64, ttl: i64, now: i64) -> (r: bool)
    ensures
        r == fresh_at(ts as int, ttl as int, now as int),
{
    ts > 0 && (now as i128) - (ts as i128) < (ttl as i128)
}

/// Whether a value stamped at `ts` is still fresh now: the answer of
/// `fresh_at` at the time the clock gives (an `i64` of seconds). Which time
/// that is, is not stated; so a value that was never stamped (`ts <= 0`) is
/// never fresh, and one that is fresh at every time is fresh.
pub fn is_fresh(ts: i64, ttl: i64) -> (r: bool)
    ensures
        exists|now: i64| r == fresh_at(ts as int, ttl as int, now as int),
        ts <= 0 ==> !r,
{
    let now = now_ts();
    let r = is_fresh_at(ts, ttl, now);
    assert(r == fresh_at(ts as int, ttl as int, now as int));
    r
}

/// A category as listed by a provider.
#[derive(Debug, PartialEq, Eq)]
pub struct VodCategory {
    pub category_id: String,
    pub category_name: String,
}

impl Clone for VodCategory {
    fn clone(&self) -> (r: VodCategory)
        ensures
            r == *self,
    {
        VodCategory { category_id: self.category_id.clone(), category_name: self.category_name.clone() }
    }
}

/// A copy of a category list.
pub fn copy_categories(v: &Vec<VodCategory>) -> (r: Vec<VodCategory>)
    ensures
        r@ == v@,
{
    let r = v.clone();
    assert(forall|i: int| 0 <= i < v.len() ==> cloned::<VodCategory>(v[i], r[i]) ==> r[i] == v[i]);
    assert(r@ =~= v@);
    r
}


/// A copy of a list whose items clone to equal values.
pub fn copy_items<T: Clone>(v: &Vec<T>) -> (r: Vec<T>)
    requires
        forall|a: T, b: T| #[trigger] cloned::<T>(a, b) ==> a == b,
    ensures
        r@ == v@,
{
    let r = v.clone();
    assert(forall|i: int| 0 <= i < v.len() ==> r[i] == v[i]);
    assert(r@ =~= v@);
    r
}

/// The three kinds of catalogue a provider lists.
#[derive(Clone, Copy, PartialEq, Eq, Debug, Structural)]
pub enum CatalogueKind {
    Live,
    Vod,
    Series,
}

/// Prefix of the stream-stamp keys of a kind.
pub open spec fn kind_prefix(kind: CatalogueKind) -> Seq<char> {
    match kind {
        CatalogueKind::Live => "live"@,
        CatalogueKind::Vod => "vod"@,
        CatalogueKind::Series => "series"@,
    }
}

/// Key under which the fetch time of a category's streams is kept:
/// `"{kind}:{category_id}"`.
pub open spec fn spec_stream_key(kind: CatalogueKind, category_id: Seq<char>) -> Seq<char> {
    kind_prefix(kind) + ":"@ + category_id
}

pub fn stream_key(kind: CatalogueKind, category_id: &str) -> (r: String)
    ensures
        r@ == spec_stream_key(kind, category_id@),
{
    let mut s = match kind {
        CatalogueKind::Live => String::from_str("live"),
        CatalogueKind::Vod => String::from_str("vod"),
        CatalogueKind::Series => String::from_str("series"),
    };
    push_str(&mut s, ":");
    push_str(&mut s, category_id);
    s
}

/// What the client keeps of one profile between runs: category lists, the
/// streams of each category, when each was fetched, and the M3U playlist
/// tables. Programme guide listings are kept beside it.
pub struct ProfileCache {
    pub live_categories: Vec<VodCategory>,
    pub vod_categories: Vec<VodCategory>,
    pub series_categories: Vec<VodCategory>,
    pub categories_at: i64,
    pub live_streams: Vec<Group<LiveStream>>,
    pub vod_streams: Vec<Group<VodStream>>,
    pub series_items: Vec<Group<SeriesItem>>,
    pub streams_at: Vec<Entry<i64>>,
    pub m3u8_at: i64,
    pub m3u8_stream_urls: Vec<Entry<String>>,
    pub m3u8_tvg_ids: Vec<Entry<String>>,
    pub m3u8_epg_at: i64,
    pub xtream_epg_at: i64,
    /// The short guide of each channel, one JSON text per listing, keyed by
    /// the stream id in decimal.
    pub epg: Vec<Entry<Vec<String>>>,
    /// When the short guide of each channel was fetched, by the same key.
    pub epg_at: Vec<Entry<i64>>,
    /// The programme guide of the M3U8 playlist, by guide id.
    pub m3u8_epg: Vec<Group<EpgListing>>,
    /// The server-wide XMLTV guide of an Xtream profile, by channel id.
    pub xtream_epg: Vec<Group<EpgListing>>,
}

/// `a` and `b` hold the same category lists and stamp.
pub open spec fn same_categories(a: ProfileCache, b: ProfileCache) -> bool {
    &&& a.live_categories@ == b.live_categories@
    &&& a.vod_categories@ == b.vod_categories@
    &&& a.series_categories@ == b.series_categories@
    &&& a.categories_at == b.categories_at
}

/// `a` and `b` hold the same streams and stream stamps.
pub open spec fn same_streams(a: ProfileCache, b: ProfileCache) -> bool {
    &&& a.live_streams@ == b.live_streams@
    &&& a.vod_streams@ == b.vod_streams@
    &&& a.series_items@ == b.series_items@
    &&& a.streams_at@ == b.streams_at@
}

/// `a` and `b` hold the same playlist tables and stamp.
pub open spec fn same_playlist(a: ProfileCache, b: ProfileCache) -> bool {
    &&& a.m3u8_at == b.m3u8_at
    &&& a.m3u8_stream_urls@ == b.m3u8_stream_urls@
    &&& a.m3u8_tvg_ids@ == b.m3u8_tvg_ids@
}

/// `a` and `b` hold the same programme guides and guide stamps.
pub open spec fn same_guides(a: ProfileCache, b: ProfileCache) -> bool {
    &&& a.epg@ == b.epg@
    &&& a.epg_at@ == b.epg_at@
    &&& a.m3u8_epg@ == b.m3u8_epg@
    &&& a.m3u8_epg_at == b.m3u8_epg_at
    &&& a.xtream_epg@ == b.xtream_epg@
    &&& a.xtream_epg_at == b.xtream_epg_at
}

impl ProfileCache {
    /// The categories of one kind.
    pub open spec fn categories(&self, kind: CatalogueKind) -> Seq<VodCategory> {
        match kind {
            CatalogueKind::Live => self.live_categories@,
            CatalogueKind::Vod => self.vod_categories@,
            CatalogueKind::Series => self.series_categories@,
        }
    }

    /// When the streams of key `skey` were fetched.
    pub open spec fn stamp(&self, skey: Seq<char>) -> Option<i64> {
        value_of(entries_view(self.streams_at@), skey)
    }

    /// The streams of key `skey` were fetched less than `STREAM_TTL` ago.
    pub open spec fn stamp_fresh(&self, skey: Seq<char>, now: i64) -> bool {
        match self.stamp(skey) {
            Some(ts) => fresh_at(ts as int, STREAM_TTL as int, now as int),
            None => false,
        }
    }

    /// Nothing is cached and nothing is stamped.
    pub open spec fn is_blank(&self) -> bool {
        &&& self.live_categories@.len() == 0 && self.vod_categories@.len() == 0
            && self.series_categories@.len() == 0
        &&& self.categories_at == 0 && self.m3u8_at == 0 && self.m3u8_epg_at == 0
            && self.xtream_epg_at == 0
        &&& self.live_streams@.len() == 0 && self.vod_streams@.len() == 0
            && self.series_items@.len() == 0
        &&& self.streams_at@.len() == 0 && self.m3u8_stream_urls@.len() == 0
            && self.m3u8_tvg_ids@.len() == 0
        &&& self.epg@.len() == 0 && self.epg_at@.len() == 0 && self.m3u8_epg@.len() == 0
            && self.xtream_epg@.len() == 0
    }

    /// A cache with nothing in it.
    pub fn new() -> (r: ProfileCache)
        ensures
            r.is_blank(),
            r.live_categories@.len() == 0 && r.vod_categories@.len() == 0
                && r.series_categories@.len() == 0,
            r.categories_at == 0 && r.m3u8_at == 0 && r.m3u8_epg_at == 0 && r.xtream_epg_at == 0,
            r.live_streams@.len() == 0 && r.vod_streams@.len() == 0 && r.series_items@.len() == 0,
            r.streams_at@.len() == 0 && r.m3u8_stream_urls@.len() == 0 && r.m3u8_tvg_ids@.len()
                == 0,
    {
        ProfileCache {
            live_categories: Vec::new(),
            vod_categories: Vec::new(),
            series_categories: Vec::new(),
            categories_at: 0,
            live_streams: Vec::new(),
            vod_streams: Vec::new(),
            series_items: Vec::new(),
            streams_at: Vec::new(),
            m3u8_at: 0,
            m3u8_stream_urls: Vec::new(),
            m3u8_tvg_ids: Vec::new(),
            m3u8_epg_at: 0,
            xtream_epg_at: 0,
            epg: Vec::new(),
            epg_at: Vec::new(),
            m3u8_epg: Vec::new(),
            xtream_epg: Vec::new(),
        }
    }

    /// The cached categories of `kind`, when they are fresh at `now` and not
    /// empty.
    pub fn cached_categories(&self, kind: CatalogueKind, now: i64) -> (r: Option<Vec<VodCategory>>)
        ensures
            r is Some <==> fresh_at(self.categories_at as int, CATEGORY_TTL as int, now as int)
                && self.categories(kind).len() > 0,
            r matches Some(v) ==> v@ == self.categories(kind),
    {
        let list = match kind {
            CatalogueKind::Live => &self.live_categories,
            CatalogueKind::Vod => &self.vod_categories,
            CatalogueKind::Series => &self.series_categories,
        };
        if is_fresh_at(self.categories_at, CATEGORY_TTL, now) && list.len() > 0 {
            Some(copy_categories(list))
        } else {
            None
        }
    }

    /// Records freshly fetched categories of `kind`, stamped `now`.
    pub fn store_categories(&mut self, kind: CatalogueKind, data: Vec<VodCategory>, now: i64)
        ensures
            final(self).categories(kind) == data@,
            forall|k: CatalogueKind| k != kind ==> final(self).categories(k) == old(self).categories(k),
            final(self).categories_at == now,
            final(self).streams_at@ == old(self).streams_at@,
            final(self).live_streams@ == old(self).live_streams@,
            final(self).vod_streams@ == old(self).vod_streams@,
            final(self).series_items@ == old(self).series_items@,
            same_playlist(*final(self), *old(self)),
            same_guides(*final(self), *old(self)),
    {
        match kind {
            CatalogueKind::Live => self.live_categories = data,
            CatalogueKind::Vod => self.vod_categories = data,
            CatalogueKind::Series => self.series_categories = data,
        }
        self.categories_at = now;
    }

    /// All three category lists are fresh at `now` and none is empty, so a
    /// prime can skip fetching them.
    pub fn all_categories_cached(&self, now: i64) -> (r: bool)
        ensures
            r == (fresh_at(self.categories_at as int, CATEGORY_TTL as int, now as int)
                && self.live_categories@.len() > 0 && self.vod_categories@.len() > 0
                && self.series_categories@.len() > 0),
    {
        is_fresh_at(self.categories_at, CATEGORY_TTL, now) && self.live_categories.len() > 0
            && self.vod_categories.len() > 0 && self.series_categories.len() > 0
    }

    /// Records the category lists fetched by a prime: each list that came
    /// back non-empty replaces the cached one; the stamp is `now` either way.
    pub fn merge_categories(
        &mut self,
        live: Vec<VodCategory>,
        vod: Vec<VodCategory>,
        series: Vec<VodCategory>,
        now: i64,
    )
        ensures
            final(self).live_categories@ == (if live@.len() > 0 {
                live@
            } else {
                old(self).live_categories@
            }),
            final(self).vod_categories@ == (if vod@.len() > 0 {
                vod@
            } else {
                old(self).vod_categories@
            }),
            final(self).series_categories@ == (if series@.len() > 0 {
                series@
            } else {
                old(self).series_categories@
            }),
            final(self).categories_at == now,
            same_streams(*final(self), *old(self)),
            same_playlist(*final(self), *old(self)),
            same_guides(*final(self), *old(self)),
    {
        if live.len() > 0 {
            self.live_categories = live;
        }
        if vod.len() > 0 {
            self.vod_categories = vod;
        }
        if series.len() > 0 {
            self.series_categories = series;
        }
        self.categories_at = now;
    }

    /// The server-wide guide of an Xtream profile is fresh at `now`.
    pub fn xtream_guide_fresh(&self, now: i64) -> (r: bool)
        ensures
            r == fresh_at(self.xtream_epg_at as int, EPG_TTL as int, now as int),
    {
        is_fresh_at(self.xtream_epg_at, EPG_TTL, now)
    }

    /// Whether the streams of key `skey` are fresh at `now`.
    pub fn stream_stamp_fresh(&self, skey: &str, now: i64) -> (r: bool)
        ensures
            r == self.stamp_fresh(skey@, now),
    {
        match find_entry(&self.streams_at, skey) {
            Some(i) => {
                proof {
                    lemma_position_of(entries_view(self.streams_at@), skey@, 0);
                }
                is_fresh_at(self.streams_at[i].value, STREAM_TTL, now)
            },
            None => false,
        }
    }

    /// The cached channels of a live category, when their stamp is fresh at
    /// `now` and the category is cached.
    pub fn cached_live_streams(&self, category_id: &str, now: i64) -> (r: Option<Vec<LiveStream>>)
        ensures
            r is Some <==> self.stamp_fresh(spec_stream_key(CatalogueKind::Live, category_id@), now)
                && group_items(groups_view(self.live_streams@), category_id@) is Some,
            r matches Some(v) ==> Some(v@) == group_items(groups_view(self.live_streams@), category_id@),
    {
        let skey = stream_key(CatalogueKind::Live, category_id);
        if !self.stream_stamp_fresh(skey.as_str(), now) {
            return None;
        }
        match find_group(&self.live_streams, category_id) {
            Some(i) => {
                proof {
                    lemma_key_position(groups_view(self.live_streams@), category_id@, 0);
                }
                Some(copy_items(&self.live_streams[i].items))
            },
            None => None,
        }
    }

    /// The cached films of a category, when their stamp is fresh at `now` and
    /// the category is cached.
    pub fn cached_vod_streams(&self, category_id: &str, now: i64) -> (r: Option<Vec<VodStream>>)
        ensures
            r is Some <==> self.stamp_fresh(spec_stream_key(CatalogueKind::Vod, category_id@), now)
                && group_items(groups_view(self.vod_streams@), category_id@) is Some,
            r matches Some(v) ==> Some(v@) == group_items(groups_view(self.vod_streams@), category_id@),
    {
        let skey = stream_key(CatalogueKind::Vod, category_id);
        if !self.stream_stamp_fresh(skey.as_str(), now) {
            return None;
        }
        match find_group(&self.vod_streams, category_id) {
            Some(i) => {
                proof {
                    lemma_key_position(groups_view(self.vod_streams@), category_id@, 0);
                }
                Some(copy_items(&self.vod_streams[i].items))
            },
            None => None,
        }
    }

    /// The cached series of a category, when their stamp is fresh at `now`
    /// and the category is cached.
    pub fn cached_series_items(&self, category_id: &str, now: i64) -> (r: Option<Vec<SeriesItem>>)
        ensures
            r is Some <==> self.stamp_fresh(spec_stream_key(CatalogueKind::Series, category_id@), now)
                && group_items(groups_view(self.series_items@), category_id@) is Some,
            r matches Some(v) ==> Some(v@) == group_items(groups_view(self.series_items@), category_id@),
    {
        let skey = stream_key(CatalogueKind::Series, category_id);
        if !self.stream_stamp_fresh(skey.as_str(), now) {
            return None;
        }
        match find_group(&self.series_items, category_id) {
            Some(i) => {
                proof {
                    lemma_key_position(groups_view(self.series_items@), category_id@, 0);
                }
                Some(copy_items(&self.series_items[i].items))
            },
            None => None,
        }
    }

    /// Records the channels of a live category fetched at `now`.
    pub fn store_live_streams(&mut self, category_id: String, data: Vec<LiveStream>, now: i64)
        ensures
            groups_view(final(self).live_streams@) == group_set(
                groups_view(old(self).live_streams@),
                category_id@,
                data@,
            ),
            entries_view(final(self).streams_at@) == with_entry(
                entries_view(old(self).streams_at@),
                spec_stream_key(CatalogueKind::Live, category_id@),
                now,
            ),
            final(self).vod_streams@ == old(self).vod_streams@,
            final(self).series_items@ == old(self).series_items@,
            final(self).live_categories@ == old(self).live_categories@,
            final(self).vod_categories@ == old(self).vod_categories@,
            final(self).series_categories@ == old(self).series_categories@,
            final(self).categories_at == old(self).categories_at,
            same_playlist(*final(self), *old(self)),
            same_guides(*final(self), *old(self)),
    {
        let skey = stream_key(CatalogueKind::Live, category_id.as_str());
        set_entry(&mut self.streams_at, skey, now);
        set_group(&mut self.live_streams, category_id, data);
    }

    /// Records the films of a category fetched at `now`.
    pub fn store_vod_streams(&mut self, category_id: String, data: Vec<VodStream>, now: i64)
        ensures
            groups_view(final(self).vod_streams@) == group_set(
                groups_view(old(self).vod_streams@),
                category_id@,
                data@,
            ),
            entries_view(final(self).streams_at@) == with_entry(
                entries_view(old(self).streams_at@),
                spec_stream_key(CatalogueKind::Vod, category_id@),
                now,
            ),
            final(self).live_streams@ == old(self).live_streams@,
            final(self).series_items@ == old(self).series_items@,
            final(self).live_categories@ == old(self).live_categories@,
            final(self).vod_categories@ == old(self).vod_categories@,
            final(self).series_categories@ == old(self).series_categories@,
            final(self).categories_at == old(self).categories_at,
            same_playlist(*final(self), *old(self)),
            same_guides(*final(self), *old(self)),
    {
        let skey = stream_key(CatalogueKind::Vod, category_id.as_str());
        set_entry(&mut self.streams_at, skey, now);
        set_group(&mut self.vod_streams, category_id, data);
    }

    /// Records the series of a category fetched at `now`.
    pub fn store_series_items(&mut self, category_id: String, data: Vec<SeriesItem>, now: i64)
        ensures
            groups_view(final(self).series_items@) == group_set(
                groups_view(old(self).series_items@),
                category_id@,
                data@,
            ),
            entries_view(final(self).streams_at@) == with_entry(
                entries_view(old(self).streams_at@),
                spec_stream_key(CatalogueKind::Series, category_id@),
                now,
            ),
            final(self).live_streams@ == old(self).live_streams@,
            final(self).vod_streams@ == old(self).vod_streams@,
            final(self).live_categories@ == old(self).live_categories@,
            final(self).vod_categories@ == old(self).vod_categories@,
            final(self).series_categories@ == old(self).series_categories@,
            final(self).categories_at == old(self).categories_at,
            same_playlist(*final(self), *old(self)),
            same_guides(*final(self), *old(self)),
    {
        let skey = stream_key(CatalogueKind::Series, category_id.as_str());
        set_entry(&mut self.streams_at, skey, now);
        set_group(&mut self.series_items, category_id, data);
    }
}

impl ProfileCache {
    /// Records the short guide of a channel, fetched at `now`; nothing else
    /// changes.
    pub fn store_channel_epg(&mut self, stream_id: u64, listings: Vec<String>, now: i64)
        ensures
            entries_view(final(self).epg@) == with_entry(
                entries_view(old(self).epg@),
                dec(stream_id as nat),
                listings,
            ),
            entries_view(final(self).epg_at@) == with_entry(
                entries_view(old(self).epg_at@),
                dec(stream_id as nat),
                now,
            ),
            final(self).live_categories@ == old(self).live_categories@,
            final(self).vod_categories@ == old(self).vod_categories@,
            final(self).series_categories@ == old(self).series_categories@,
            final(self).categories_at == old(self).categories_at,
            final(self).live_streams@ == old(self).live_streams@,
            final(self).vod_streams@ == old(self).vod_streams@,
            final(self).series_items@ == old(self).series_items@,
            final(self).streams_at@ == old(self).streams_at@,
            final(self).m3u8_at == old(self).m3u8_at,
            final(self).m3u8_stream_urls@ == old(self).m3u8_stream_urls@,
            final(self).m3u8_tvg_ids@ == old(self).m3u8_tvg_ids@,
            final(self).m3u8_epg_at == old(self).m3u8_epg_at,
            final(self).xtream_epg_at == old(self).xtream_epg_at,
            final(self).m3u8_epg@ == old(self).m3u8_epg@,
            final(self).xtream_epg@ == old(self).xtream_epg@,
    {
        set_entry(&mut self.epg, decimal_string(stream_id), listings);
        set_entry(&mut self.epg_at, decimal_string(stream_id), now);
    }

    /// Records the server-wide guide of an Xtream profile, read at `now`.
    pub fn store_xtream_guide(&mut self, guide: Vec<Group<EpgListing>>, now: i64)
        ensures
            final(self).xtream_epg@ == guide@,
            final(self).xtream_epg_at == now,
            final(self).epg@ == old(self).epg@,
            final(self).epg_at@ == old(self).epg_at@,
            final(self).m3u8_epg@ == old(self).m3u8_epg@,
            final(self).m3u8_epg_at == old(self).m3u8_epg_at,
            final(self).live_streams@ == old(self).live_streams@,
            final(self).streams_at@ == old(self).streams_at@,
            final(self).categories_at == old(self).categories_at,
    {
        self.xtream_epg = guide;
        self.xtream_epg_at = now;
    }

    /// Records the guide of an M3U8 playlist, read at `now`.
    pub fn store_playlist_guide(&mut self, guide: Vec<Group<EpgListing>>, now: i64)
        ensures
            final(self).m3u8_epg@ == guide@,
            final(self).m3u8_epg_at == now,
            final(self).epg@ == old(self).epg@,
            final(self).epg_at@ == old(self).epg_at@,
            final(self).xtream_epg@ == old(self).xtream_epg@,
            final(self).xtream_epg_at == old(self).xtream_epg_at,
            final(self).m3u8_tvg_ids@ == old(self).m3u8_tvg_ids@,
            final(self).m3u8_stream_urls@ == old(self).m3u8_stream_urls@,
            final(self).m3u8_at == old(self).m3u8_at,
            final(self).live_streams@ == old(self).live_streams@,
    {
        self.m3u8_epg = guide;
        self.m3u8_epg_at = now;
    }
}

/// The short guide of a channel is served from the cache at `now`: its
/// stamp is fresh and listings are stored for it.
pub open spec fn channel_epg_cached(c: ProfileCache, stream_id: u64, now: i64) -> bool {
    &&& value_of(entries_view(c.epg_at@), dec(stream_id as nat)) matches Some(t) && fresh_at(
        t as int,
        EPG_TTL as int,
        now as int,
    )
    &&& value_of(entries_view(c.epg@), dec(stream_id as nat)) is Some
}

/// The cached short guide of a channel when it is fresh at `now` and
/// stored, else `None` (the guide must be fetched).
pub fn plan_channel_epg(pc: Option<&ProfileCache>, stream_id: u64, now: i64) -> (r: Option<
    Vec<String>,
>)
    ensures
        r is Some <==> (pc matches Some(c) && channel_epg_cached(*c, stream_id, now)),
        r matches Some(v) ==> (pc matches Some(c) && value_of(
            entries_view(c.epg@),
            dec(stream_id as nat),
        ) matches Some(w) && v@ == w@),
{
    match pc {
        None => None,
        Some(c) => {
            let key = decimal_string(stream_id);
            proof {
                lemma_position_of(entries_view(c.epg_at@), key@, 0);
                lemma_position_of(entries_view(c.epg@), key@, 0);
            }
            let fresh = match find_entry(&c.epg_at, key.as_str()) {
                Some(i) => is_fresh_at(c.epg_at[i].value, EPG_TTL, now),
                None => false,
            };
            if !fresh {
                return None;
            }
            match find_entry(&c.epg, key.as_str()) {
                Some(i) => Some(copy_items(&c.epg[i].value)),
                None => None,
            }
        },
    }
}

/// A channel's short guide stored at `now` (above zero) is served from the
/// cache, exactly as stored, at any time before its time to live has run
/// out.
pub proof fn lemma_stored_channel_epg_served(
    before: ProfileCache,
    after: ProfileCache,
    stream_id: u64,
    listings: Vec<String>,
    now: i64,
    later: i64,
)
    requires
        entries_view(after.epg@) == with_entry(
            entries_view(before.epg@),
            dec(stream_id as nat),
            listings,
        ),
        entries_view(after.epg_at@) == with_entry(
            entries_view(before.epg_at@),
            dec(stream_id as nat),
            now,
        ),
        now > 0,
        later - now < EPG_TTL,
    ensures
        channel_epg_cached(after, stream_id, later),
        value_of(entries_view(after.epg@), dec(stream_id as nat)) == Some(listings),
{
    crate::keyed::lemma_with_entry_read(entries_view(before.epg@), dec(stream_id as nat), listings);
    crate::keyed::lemma_with_entry_read(entries_view(before.epg_at@), dec(stream_id as nat), now);
}

/// What storing the streams of category `cat` at `now` does to a cache: the
/// category holds `data` and its stamp is `now` (the `ensures` of the store
/// methods, over the list of `kind`).
pub open spec fn stored_streams<T>(
    before_groups: Seq<(Seq<char>, Seq<T>)>,
    after_groups: Seq<(Seq<char>, Seq<T>)>,
    before: ProfileCache,
    after: ProfileCache,
    kind: CatalogueKind,
    cat: Seq<char>,
    data: Seq<T>,
    now: i64,
) -> bool {
    &&& after_groups == group_set(before_groups, cat, data)
    &&& entries_view(after.streams_at@) == with_entry(
        entries_view(before.streams_at@),
        spec_stream_key(kind, cat),
        now,
    )
}

/// Streams stored at `now` (a real time, above zero) are served from the
/// cache, exactly as stored, at any time before their time to live has run
/// out.
pub proof fn lemma_stored_streams_served<T>(
    before_groups: Seq<(Seq<char>, Seq<T>)>,
    after_groups: Seq<(Seq<char>, Seq<T>)>,
    before: ProfileCache,
    after: ProfileCache,
    kind: CatalogueKind,
    cat: Seq<char>,
    data: Seq<T>,
    now: i64,
    later: i64,
)
    requires
        stored_streams(before_groups, after_groups, before, after, kind, cat, data, now),
        now > 0,
        later - now < STREAM_TTL,
    ensures
        after.stamp_fresh(spec_stream_key(kind, cat), later),
        group_items(after_groups, cat) == Some(data),
{
    crate::keyed::lemma_with_entry_read(
        entries_view(before.streams_at@),
        spec_stream_key(kind, cat),
        now,
    );
    crate::group::lemma_group_set_read(before_groups, cat, data);
}

/// Categories stored at `now` (above zero) are served from the cache, exactly
/// as stored, at any time before their time to live has run out, provided
/// the list is not empty.
pub proof fn lemma_stored_categories_served(
    after: ProfileCache,
    kind: CatalogueKind,
    data: Seq<VodCategory>,
    now: i64,
    later: i64,
)
    requires
        after.categories(kind) == data,
        after.categories_at == now,
        now > 0,
        later - now < CATEGORY_TTL,
    ensures
        (fresh_at(after.categories_at as int, CATEGORY_TTL as int, later as int)
            && after.categories(kind).len() > 0) == (data.len() > 0),
{
}

/// A category's streams must be fetched unless the profile is cached and
/// the stamp of `skey` is fresh at `now`.
pub fn needs_fetch(pc: Option<&ProfileCache>, skey: &str, now: i64) -> (r: bool)
    ensures
        r == !(pc matches Some(c) && c.stamp_fresh(skey@, now)),
{
    match pc {
        Some(c) => !c.stream_stamp_fresh(skey, now),
        None => true,
    }
}

/// The streams of category `cat` of `kind` must be fetched at `now`.
pub open spec fn category_stale(pc: Option<ProfileCache>, kind: CatalogueKind, cat: Seq<char>, now: i64) -> bool {
    !(pc matches Some(c) && c.stamp_fresh(spec_stream_key(kind, cat), now))
}

/// Whether any of the categories must have its streams fetched at `now`
/// (live channels are fetched all at once when one category is stale).
pub fn any_category_stale(
    pc: Option<&ProfileCache>,
    kind: CatalogueKind,
    cats: &Vec<VodCategory>,
    now: i64,
) -> (r: bool)
    ensures
        r == exists|i: int|
            0 <= i < cats@.len() && category_stale(
                match pc {
                    Some(c) => Some(*c),
                    None => None,
                },
                kind,
                (#[trigger] cats@[i]).category_id@,
                now,
            ),
{
    let ghost opc = match pc {
        Some(c) => Some(*c),
        None => None::<ProfileCache>,
    };
    let mut i: usize = 0;
    while i < cats.len()
        invariant
            i <= cats.len(),
            opc == (match pc {
                Some(c) => Some(*c),
                None => None::<ProfileCache>,
            }),
            forall|j: int| 0 <= j < i ==> !category_stale(opc, kind, (#[trigger] cats@[j]).category_id@, now),
        decreases cats.len() - i,
    {
        let skey = stream_key(kind, cats[i].category_id.as_str());
        if needs_fetch(pc, skey.as_str(), now) {
            return true;
        }
        i = i + 1;
    }
    false
}

} // verus!
