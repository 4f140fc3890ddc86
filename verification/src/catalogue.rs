//! How a request for categories or streams is answered: from the cache
//! when it is fresh, else by fetching from the profile's server.

use vstd::prelude::*;

use crate::cache::{
    fresh_at, spec_stream_key, CatalogueKind, ProfileCache, VodCategory, CATEGORY_TTL,
};
use crate::group::{group_items, groups_view};
use crate::keyed::{entries_view, find_entry, lemma_position_of, set_entry, value_of, with_entry, Entry};
use crate::live::LiveStream;
use crate::profiles::{lookup_credentials, quoted_message, ProfileCredentials};
use crate::series::SeriesItem;
use crate::vods::VodStream;
use crate::xtream::{all_live_streams_url, api_base, categories_action, categories_url, category_items_url, items_action};

verus! {

/// How a request is answered.
pub enum Lookup<T> {
    /// From the cache, with these items.
    Cached(Vec<T>),
    /// By fetching this URL.
    Fetch(String),
}

/// The cache of profile `name`.
pub open spec fn cache_of(caches: Seq<Entry<ProfileCache>>, name: Seq<char>) -> Option<ProfileCache> {
    value_of(entries_view(caches), name)
}

/// The cache of profile `name`, if there is one.
pub fn find_cache<'a>(caches: &'a Vec<Entry<ProfileCache>>, name: &str) -> (r: Option<
    &'a ProfileCache,
>)
    ensures
        match cache_of(caches@, name@) {
            Some(c) => r == Some(&c),
            None => r is None,
        },
{
    match find_entry(caches, name) {
        Some(i) => {
            proof {
                lemma_position_of(entries_view(caches@), name@, 0);
            }
            Some(&caches[i].value)
        },
        None => None,
    }
}

/// The index of the cache of profile `name`, after adding an empty one
/// when there is none.
pub fn cache_slot(caches: &mut Vec<Entry<ProfileCache>>, name: &str) -> (r: usize)
    ensures
        r < final(caches)@.len(),
        final(caches)@[r as int].key@ == name@,
        cache_of(final(caches)@, name@) == Some(final(caches)@[r as int].value),
        cache_of(old(caches)@, name@) is Some ==> final(caches)@ == old(caches)@,
        cache_of(old(caches)@, name@) is None ==> final(caches)@ == old(caches)@.push(
            final(caches)@[r as int],
        ) && final(caches)@[r as int].value.is_blank(),
{
    proof {
        lemma_position_of(entries_view(caches@), name@, 0);
    }
    match find_entry(caches, name) {
        Some(i) => i,
        None => {
            let ghost before = caches@;
            caches.push(Entry { key: String::from_str(name), value: ProfileCache::new() });
            let r = caches.len() - 1;
            proof {
                assert(caches@.drop_last() == before);
                assert(entries_view(caches@) =~= entries_view(before).push((name@, caches@[r as int].value)));
                lemma_position_of(entries_view(caches@), name@, 0);
                assert(entries_view(caches@)[r as int].0 == name@);
            }
            r
        },
    }
}

/// Answers a request for the categories of `kind` of profile `name` at
/// `now`: from the cache when its list is fresh and not empty, else by the
/// URL that lists them; an unknown profile is refused.
pub fn plan_categories(
    caches: &Vec<Entry<ProfileCache>>,
    creds: &Vec<Entry<ProfileCredentials>>,
    name: &str,
    kind: CatalogueKind,
    now: i64,
) -> (r: Result<Lookup<VodCategory>, String>)
    ensures
        match cache_of(caches@, name@) {
            Some(c) if fresh_at(c.categories_at as int, CATEGORY_TTL as int, now as int)
                && c.categories(kind).len() > 0 => r matches Ok(Lookup::Cached(v)) && v@
                == c.categories(kind),
            _ => match value_of(entries_view(creds@), name@) {
                Some(p) => r matches Ok(Lookup::Fetch(u)) && u@ == api_base(p) + "&action="@
                    + categories_action(kind),
                None => r matches Err(e) && e@ == quoted_message(
                    "Profile "@,
                    name@,
                    " not found"@,
                ),
            },
        },
{
    match find_cache(caches, name) {
        Some(c) => match c.cached_categories(kind, now) {
            Some(v) => {
                return Ok(Lookup::Cached(v));
            },
            None => {},
        },
        None => {},
    }
    match lookup_credentials(creds, name) {
        Ok(p) => Ok(Lookup::Fetch(categories_url(&p, kind))),
        Err(e) => Err(e),
    }
}

/// Answers a request for the films of category `cat` of profile `name` at
/// `now`: from the cache when the category is cached with a fresh stamp,
/// else by the URL that lists it; an unknown profile is refused.
pub fn plan_vod_streams(
    caches: &Vec<Entry<ProfileCache>>,
    creds: &Vec<Entry<ProfileCredentials>>,
    name: &str,
    cat: &str,
    now: i64,
) -> (r: Result<Lookup<VodStream>, String>)
    ensures
        match cache_of(caches@, name@) {
            Some(c) if c.stamp_fresh(spec_stream_key(CatalogueKind::Vod, cat@), now) && group_items(
                groups_view(c.vod_streams@),
                cat@,
            ) is Some => r matches Ok(Lookup::Cached(v)) && Some(v@) == group_items(
                groups_view(c.vod_streams@),
                cat@,
            ),
            _ => match value_of(entries_view(creds@), name@) {
                Some(p) => r matches Ok(Lookup::Fetch(u)) && u@ == api_base(p) + "&action="@
                    + items_action(CatalogueKind::Vod) + "&category_id="@ + cat@,
                None => r matches Err(e) && e@ == quoted_message(
                    "Profile "@,
                    name@,
                    " not found"@,
                ),
            },
        },
{
    match find_cache(caches, name) {
        Some(c) => match c.cached_vod_streams(cat, now) {
            Some(v) => {
                return Ok(Lookup::Cached(v));
            },
            None => {},
        },
        None => {},
    }
    match lookup_credentials(creds, name) {
        Ok(p) => Ok(Lookup::Fetch(category_items_url(&p, CatalogueKind::Vod, cat))),
        Err(e) => Err(e),
    }
}

/// Answers a request for the series of category `cat` of profile `name` at
/// `now`, as `plan_vod_streams` does for films.
pub fn plan_series_items(
    caches: &Vec<Entry<ProfileCache>>,
    creds: &Vec<Entry<ProfileCredentials>>,
    name: &str,
    cat: &str,
    now: i64,
) -> (r: Result<Lookup<SeriesItem>, String>)
    ensures
        match cache_of(caches@, name@) {
            Some(c) if c.stamp_fresh(spec_stream_key(CatalogueKind::Series, cat@), now)
                && group_items(groups_view(c.series_items@), cat@) is Some => r matches Ok(
                Lookup::Cached(v),
            ) && Some(v@) == group_items(groups_view(c.series_items@), cat@),
            _ => match value_of(entries_view(creds@), name@) {
                Some(p) => r matches Ok(Lookup::Fetch(u)) && u@ == api_base(p) + "&action="@
                    + items_action(CatalogueKind::Series) + "&category_id="@ + cat@,
                None => r matches Err(e) && e@ == quoted_message(
                    "Profile "@,
                    name@,
                    " not found"@,
                ),
            },
        },
{
    match find_cache(caches, name) {
        Some(c) => match c.cached_series_items(cat, now) {
            Some(v) => {
                return Ok(Lookup::Cached(v));
            },
            None => {},
        },
        None => {},
    }
    match lookup_credentials(creds, name) {
        Ok(p) => Ok(Lookup::Fetch(category_items_url(&p, CatalogueKind::Series, cat))),
        Err(e) => Err(e),
    }
}

/// Answers a request for the channels of category `cat` of profile `name`
/// at `now`: from the cache when the category is cached with a fresh stamp,
/// else by the URL that lists every channel of the server (they are filed
/// by category all at once); an unknown profile is refused.
pub fn plan_live_streams(
    caches: &Vec<Entry<ProfileCache>>,
    creds: &Vec<Entry<ProfileCredentials>>,
    name: &str,
    cat: &str,
    now: i64,
) -> (r: Result<Lookup<LiveStream>, String>)
    ensures
        match cache_of(caches@, name@) {
            Some(c) if c.stamp_fresh(spec_stream_key(CatalogueKind::Live, cat@), now) && group_items(
                groups_view(c.live_streams@),
                cat@,
            ) is Some => r matches Ok(Lookup::Cached(v)) && Some(v@) == group_items(
                groups_view(c.live_streams@),
                cat@,
            ),
            _ => match value_of(entries_view(creds@), name@) {
                Some(p) => r matches Ok(Lookup::Fetch(u)) && u@ == api_base(p) + "&action="@
                    + items_action(CatalogueKind::Live),
                None => r matches Err(e) && e@ == quoted_message(
                    "Profile "@,
                    name@,
                    " not found"@,
                ),
            },
        },
{
    match find_cache(caches, name) {
        Some(c) => match c.cached_live_streams(cat, now) {
            Some(v) => {
                return Ok(Lookup::Cached(v));
            },
            None => {},
        },
        None => {},
    }
    match lookup_credentials(creds, name) {
        Ok(p) => Ok(Lookup::Fetch(all_live_streams_url(&p))),
        Err(e) => Err(e),
    }
}

/// How priming gets the three category lists of a profile.
pub enum CategoryPrime {
    /// From the cache: live, film and series categories.
    Cached(Vec<VodCategory>, Vec<VodCategory>, Vec<VodCategory>),
    /// By fetching these URLs: live, film and series categories.
    Fetch(String, String, String),
}

/// Decides how priming gets the category lists at `now`: from the cache
/// when all three are fresh and none is empty, else from the server.
pub fn plan_prime_categories(cache: Option<&ProfileCache>, p: &ProfileCredentials, now: i64) -> (r:
    CategoryPrime)
    ensures
        match cache {
            Some(c) if fresh_at(c.categories_at as int, CATEGORY_TTL as int, now as int)
                && c.live_categories@.len() > 0 && c.vod_categories@.len() > 0
                && c.series_categories@.len() > 0 => r matches CategoryPrime::Cached(l, v, s) && l@
                == c.live_categories@ && v@ == c.vod_categories@ && s@ == c.series_categories@,
            _ => r matches CategoryPrime::Fetch(l, v, s) && l@ == api_base(*p) + "&action="@
                + categories_action(CatalogueKind::Live) && v@ == api_base(*p) + "&action="@
                + categories_action(CatalogueKind::Vod) && s@ == api_base(*p) + "&action="@
                + categories_action(CatalogueKind::Series),
        },
{
    match cache {
        Some(c) => {
            if c.all_categories_cached(now) {
                return CategoryPrime::Cached(
                    crate::cache::copy_categories(&c.live_categories),
                    crate::cache::copy_categories(&c.vod_categories),
                    crate::cache::copy_categories(&c.series_categories),
                );
            }
        },
        None => {},
    }
    CategoryPrime::Fetch(
        categories_url(p, CatalogueKind::Live),
        categories_url(p, CatalogueKind::Vod),
        categories_url(p, CatalogueKind::Series),
    )
}

/// The credentials priming works with; an unknown profile is refused.
pub fn prime_credentials(creds: &Vec<Entry<ProfileCredentials>>, name: &str) -> (r: Result<
    ProfileCredentials,
    String,
>)
    ensures
        match value_of(entries_view(creds@), name@) {
            Some(c) => r == Ok::<ProfileCredentials, String>(c),
            None => r matches Err(e) && e@ == "Profile not found"@,
        },
{
    match lookup_credentials(creds, name) {
        Ok(c) => Ok(c),
        Err(_) => Err(String::from_str("Profile not found")),
    }
}

} // verus!
