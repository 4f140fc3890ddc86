use tunedesk::cache::{CatalogueKind, ProfileCache, VodCategory, CATEGORY_TTL};
use tunedesk::catalogue::{
    cache_slot, find_cache, plan_categories, plan_live_streams, plan_prime_categories, plan_series_items,
    plan_vod_streams, prime_credentials, CategoryPrime, Lookup,
};
use tunedesk::keyed::Entry;
use tunedesk::live::{group_live_streams, parse_live_stream, read_category, store_live_groups, JsonField, RawLiveStream};
use tunedesk::profiles::ProfileCredentials;

fn creds() -> Vec<Entry<ProfileCredentials>> {
    vec![Entry {
        key: "home".to_string(),
        value: ProfileCredentials { url: "http://s".to_string(), username: "u".to_string(), password: "p".to_string() },
    }]
}

fn raw(id: JsonField, cat: JsonField) -> RawLiveStream {
    RawLiveStream {
        stream_id: id,
        num: JsonField::Missing,
        name: JsonField::Text("Chan".to_string()),
        stream_icon: JsonField::Other,
        epg_channel_id: JsonField::Missing,
        category_id: cat,
    }
}

#[test]
fn live_record_ids() {
    let s = parse_live_stream(&raw(JsonField::Unsigned(12), JsonField::Missing)).unwrap();
    assert_eq!(s.stream_id, 12);
    assert_eq!(s.name, "Chan");
    assert_eq!(s.stream_icon, "");
    assert_eq!(s.num, 0);
    assert_eq!(parse_live_stream(&raw(JsonField::Number(7), JsonField::Missing)).unwrap().stream_id, 7);
    assert_eq!(parse_live_stream(&raw(JsonField::Text(" 42 ".to_string()), JsonField::Missing)).unwrap().stream_id, 42);
    assert!(parse_live_stream(&raw(JsonField::Text("x1".to_string()), JsonField::Missing)).is_none());
    assert!(parse_live_stream(&raw(JsonField::Unsigned(0), JsonField::Missing)).is_none());
    assert!(parse_live_stream(&raw(JsonField::Missing, JsonField::Missing)).is_none());
    assert!(parse_live_stream(&raw(JsonField::Other, JsonField::Missing)).is_none());
}

#[test]
fn live_record_numbers() {
    let mut r = raw(JsonField::Unsigned(1), JsonField::Missing);
    r.num = JsonField::Text("17".to_string());
    assert_eq!(parse_live_stream(&r).unwrap().num, 17);
    r.num = JsonField::Unsigned(4_294_967_296 + 5);
    assert_eq!(parse_live_stream(&r).unwrap().num, 5);
    r.num = JsonField::Text(" 3".to_string());
    assert_eq!(parse_live_stream(&r).unwrap().num, 0);
}

#[test]
fn live_record_categories() {
    assert_eq!(read_category(&JsonField::Text("5".to_string())), "5");
    assert_eq!(read_category(&JsonField::Text(String::new())), "0");
    assert_eq!(read_category(&JsonField::Unsigned(31)), "31");
    assert_eq!(read_category(&JsonField::Number(2)), "0");
    assert_eq!(read_category(&JsonField::Missing), "0");
}

#[test]
fn live_list_grouped_and_stored() {
    let raws = vec![
        raw(JsonField::Unsigned(1), JsonField::Text("A".to_string())),
        raw(JsonField::Unsigned(0), JsonField::Text("A".to_string())),
        raw(JsonField::Unsigned(2), JsonField::Unsigned(9)),
        raw(JsonField::Unsigned(3), JsonField::Text("A".to_string())),
    ];
    let ingest = group_live_streams(&raws);
    assert_eq!(ingest.total, 3);
    assert_eq!(ingest.skipped, 1);
    assert_eq!(ingest.groups.len(), 2);
    assert_eq!(ingest.groups[0].key, "A");
    let ids: Vec<u64> = ingest.groups[0].items.iter().map(|s| s.stream_id).collect();
    assert_eq!(ids, vec![1, 3]);
    assert_eq!(ingest.groups[1].key, "9");
    let mut pc = ProfileCache::new();
    store_live_groups(&mut pc, ingest.groups, 50);
    assert_eq!(pc.cached_live_streams("A", 51).unwrap().len(), 2);
    assert_eq!(pc.cached_live_streams("9", 51).unwrap()[0].stream_id, 2);
    assert!(pc.cached_live_streams("B", 51).is_none());
}

#[test]
fn category_requests_answered_from_cache_or_server() {
    let mut caches: Vec<Entry<ProfileCache>> = vec![];
    let c = creds();
    match plan_categories(&caches, &c, "home", CatalogueKind::Live, 100) {
        Ok(Lookup::Fetch(u)) => {
            assert_eq!(u, "http://s/player_api.php?username=u&password=p&action=get_live_categories")
        }
        _ => panic!("expected a fetch"),
    }
    assert_eq!(
        plan_categories(&caches, &c, "nobody", CatalogueKind::Live, 100).err(),
        Some("Profile 'nobody' not found".to_string())
    );
    let i = cache_slot(&mut caches, "home");
    assert_eq!(cache_slot(&mut caches, "home"), i);
    assert_eq!(caches.len(), 1);
    caches[i].value.store_categories(
        CatalogueKind::Live,
        vec![VodCategory { category_id: "1".to_string(), category_name: "News".to_string() }],
        100,
    );
    match plan_categories(&caches, &c, "home", CatalogueKind::Live, 100 + CATEGORY_TTL - 1) {
        Ok(Lookup::Cached(v)) => assert_eq!(v[0].category_name, "News"),
        _ => panic!("expected a cache hit"),
    }
    assert!(matches!(
        plan_categories(&caches, &c, "home", CatalogueKind::Live, 100 + CATEGORY_TTL),
        Ok(Lookup::Fetch(_))
    ));
    assert!(find_cache(&caches, "home").is_some());
    assert!(find_cache(&caches, "other").is_none());
}

#[test]
fn stream_requests_answered_from_cache_or_server() {
    let mut caches: Vec<Entry<ProfileCache>> = vec![];
    let c = creds();
    match plan_vod_streams(&caches, &c, "home", "7", 1) {
        Ok(Lookup::Fetch(u)) => {
            assert_eq!(u, "http://s/player_api.php?username=u&password=p&action=get_vod_streams&category_id=7")
        }
        _ => panic!("expected a fetch"),
    }
    match plan_series_items(&caches, &c, "home", "7", 1) {
        Ok(Lookup::Fetch(u)) => {
            assert_eq!(u, "http://s/player_api.php?username=u&password=p&action=get_series&category_id=7")
        }
        _ => panic!("expected a fetch"),
    }
    match plan_live_streams(&caches, &c, "home", "7", 1) {
        Ok(Lookup::Fetch(u)) => assert_eq!(u, "http://s/player_api.php?username=u&password=p&action=get_live_streams"),
        _ => panic!("expected a fetch"),
    }
    let i = cache_slot(&mut caches, "home");
    caches[i].value.store_series_items("7".to_string(), vec![], 10);
    assert!(matches!(plan_series_items(&caches, &c, "home", "7", 11), Ok(Lookup::Cached(v)) if v.is_empty()));
    assert!(plan_vod_streams(&caches, &c, "x", "7", 11).is_err());
}

#[test]
fn prime_plans() {
    let c = creds();
    let p = prime_credentials(&c, "home").ok().unwrap();
    assert_eq!(prime_credentials(&c, "x").err(), Some("Profile not found".to_string()));
    match plan_prime_categories(None, &p, 5) {
        CategoryPrime::Fetch(l, v, s) => {
            assert!(l.ends_with("&action=get_live_categories"));
            assert!(v.ends_with("&action=get_vod_categories"));
            assert!(s.ends_with("&action=get_series_categories"));
        }
        _ => panic!("expected a fetch"),
    }
    let mut pc = ProfileCache::new();
    let cat = || vec![VodCategory { category_id: "1".to_string(), category_name: "x".to_string() }];
    pc.merge_categories(cat(), cat(), cat(), 5);
    assert!(matches!(plan_prime_categories(Some(&pc), &p, 6), CategoryPrime::Cached(..)));
}
