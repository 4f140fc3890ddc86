use tunedesk::cache::{is_fresh, is_fresh_at, now_ts, needs_fetch, ProfileCache, CATEGORY_TTL, STREAM_TTL};
use tunedesk::cache::{CatalogueKind, VodCategory};

#[test]
fn is_fresh_zero_timestamp_is_stale() {
    assert!(!is_fresh(0, CATEGORY_TTL));
}

#[test]
fn is_fresh_recent_timestamp() {
    assert!(is_fresh(now_ts(), CATEGORY_TTL));
}

#[test]
fn is_fresh_expired_timestamp() {
    assert!(!is_fresh(now_ts() - CATEGORY_TTL - 1, CATEGORY_TTL));
}

#[test]
fn is_fresh_exactly_at_boundary_is_stale() {
    // age == TTL is not fresh (requires strictly less than TTL)
    assert!(!is_fresh(now_ts() - CATEGORY_TTL, CATEGORY_TTL));
}

#[test]
fn is_fresh_one_second_before_expiry() {
    assert!(is_fresh(now_ts() - CATEGORY_TTL + 1, CATEGORY_TTL));
}

#[test]
fn is_fresh_negative_timestamp_is_stale() {
    assert!(!is_fresh(-1, CATEGORY_TTL));
}

#[test]
fn fresh_at_fixed_clock() {
    assert!(is_fresh_at(1000, 100, 1099));
    assert!(!is_fresh_at(1000, 100, 1100));
    assert!(!is_fresh_at(0, 100, 50));
    assert!(is_fresh_at(1000, 100, 900));
}

#[test]
fn ttl_values() {
    assert_eq!(CATEGORY_TTL, 6 * 3600);
    assert_eq!(STREAM_TTL, 6 * 3600);
    assert_eq!(tunedesk::cache::EPG_TTL, 2 * 3600);
    assert_eq!(tunedesk::cache::M3U8_TTL, 6 * 3600);
}

fn cat(id: &str) -> VodCategory {
    VodCategory { category_id: id.to_string(), category_name: format!("Name {id}") }
}

#[test]
fn stored_categories_are_served_until_stale() {
    let mut pc = ProfileCache::new();
    assert!(pc.cached_categories(CatalogueKind::Vod, 1000).is_none());
    pc.store_categories(CatalogueKind::Vod, vec![cat("1"), cat("2")], 1000);
    let hit = pc.cached_categories(CatalogueKind::Vod, 1000 + CATEGORY_TTL - 1).unwrap();
    assert_eq!(hit, vec![cat("1"), cat("2")]);
    assert!(pc.cached_categories(CatalogueKind::Vod, 1000 + CATEGORY_TTL).is_none());
    // an empty list is never a hit
    assert!(pc.cached_categories(CatalogueKind::Live, 1001).is_none());
}

#[test]
fn all_categories_cached_needs_three_lists() {
    let mut pc = ProfileCache::new();
    pc.merge_categories(vec![cat("1")], vec![cat("2")], vec![], 500);
    assert!(!pc.all_categories_cached(501));
    pc.merge_categories(vec![], vec![], vec![cat("3")], 600);
    assert!(pc.all_categories_cached(601));
    assert_eq!(pc.live_categories, vec![cat("1")]);
    assert_eq!(pc.series_categories, vec![cat("3")]);
}

#[test]
fn stored_streams_are_served_until_stale() {
    let mut pc = ProfileCache::new();
    let film = tunedesk::vods::VodStream { stream_id: 7, name: "Film".to_string(), stream_icon: String::new() };
    assert!(needs_fetch(Some(&pc), "vod:5", 100));
    pc.store_vod_streams("5".to_string(), vec![film.clone()], 100);
    assert!(!needs_fetch(Some(&pc), "vod:5", 100 + STREAM_TTL - 1));
    assert!(needs_fetch(Some(&pc), "vod:5", 100 + STREAM_TTL));
    assert!(needs_fetch(None, "vod:5", 100));
    let got = pc.cached_vod_streams("5", 150).unwrap();
    assert_eq!(got.len(), 1);
    assert_eq!(got[0].stream_id, 7);
    assert!(pc.cached_vod_streams("6", 150).is_none());
    assert!(pc.cached_live_streams("5", 150).is_none());
}

#[test]
fn stream_keys() {
    assert_eq!(tunedesk::cache::stream_key(CatalogueKind::Live, "3"), "live:3");
    assert_eq!(tunedesk::cache::stream_key(CatalogueKind::Vod, "3"), "vod:3");
    assert_eq!(tunedesk::cache::stream_key(CatalogueKind::Series, "x"), "series:x");
}

#[test]
fn any_category_stale_checks_each_category() {
    let mut pc = ProfileCache::new();
    let cats = vec![cat("1"), cat("2")];
    assert!(tunedesk::cache::any_category_stale(Some(&pc), CatalogueKind::Live, &cats, 10));
    pc.store_live_streams("1".to_string(), vec![], 10);
    assert!(tunedesk::cache::any_category_stale(Some(&pc), CatalogueKind::Live, &cats, 11));
    pc.store_live_streams("2".to_string(), vec![], 10);
    assert!(!tunedesk::cache::any_category_stale(Some(&pc), CatalogueKind::Live, &cats, 11));
    assert!(tunedesk::cache::any_category_stale(None, CatalogueKind::Live, &cats, 11));
    assert!(!tunedesk::cache::any_category_stale(None, CatalogueKind::Live, &vec![], 11));
}

#[test]
fn timestamps_from_clock_seconds() {
    assert_eq!(tunedesk::cache::timestamp_of(None), 0);
    assert_eq!(tunedesk::cache::timestamp_of(Some(1_704_067_200)), 1_704_067_200);
    assert_eq!(tunedesk::cache::timestamp_of(Some(u64::MAX)), -1);
    assert!(now_ts() > 1_600_000_000);
}

#[test]
fn category_merge_keeps_streams_and_guides() {
    let mut pc = ProfileCache::new();
    pc.store_live_streams("1".to_string(), vec![], 10);
    pc.store_channel_epg(3, vec!["{}".to_string()], 10);
    pc.merge_categories(vec![cat("1")], vec![], vec![], 20);
    assert_eq!(pc.live_streams.len(), 1);
    assert_eq!(pc.streams_at.len(), 1);
    assert_eq!(pc.epg.len(), 1);
    assert_eq!(pc.categories_at, 20);
}
