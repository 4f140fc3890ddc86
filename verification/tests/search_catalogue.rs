use tunedesk::cache::ProfileCache;
use tunedesk::group::set_group;
use tunedesk::keyed::Entry;
use tunedesk::live::LiveStream;
use tunedesk::search::{search_all_profiles, search_profile_cache};
use tunedesk::series::SeriesItem;
use tunedesk::vods::VodStream;

fn make_cache(
    live: Vec<(&str, Vec<LiveStream>)>,
    vods: Vec<(&str, Vec<VodStream>)>,
    series: Vec<(&str, Vec<SeriesItem>)>,
) -> ProfileCache {
    let mut pc = ProfileCache::new();
    for (cat, streams) in live {
        set_group(&mut pc.live_streams, cat.to_string(), streams);
    }
    for (cat, streams) in vods {
        set_group(&mut pc.vod_streams, cat.to_string(), streams);
    }
    for (cat, items) in series {
        set_group(&mut pc.series_items, cat.to_string(), items);
    }
    pc
}

fn live_stream(id: u64, name: &str) -> LiveStream {
    LiveStream { num: id as u32, stream_id: id, name: name.to_string(), stream_icon: String::new(), epg_channel_id: String::new() }
}

fn vod_stream(id: u64, name: &str) -> VodStream {
    VodStream { stream_id: id, name: name.to_string(), stream_icon: String::new() }
}

fn series_item(id: u64, name: &str) -> SeriesItem {
    SeriesItem { series_id: id, name: name.to_string(), cover: String::new() }
}

#[test]
fn returns_empty_when_no_match() {
    let pc = make_cache(
        vec![("News", vec![live_stream(1, "BBC One")])],
        vec![],
        vec![],
    );
    assert!(search_profile_cache(&pc, "xyz").is_empty());
}

#[test]
fn matches_live_stream_case_insensitively() {
    let pc = make_cache(
        vec![("News", vec![live_stream(1, "BBC One"), live_stream(2, "CNN")])],
        vec![],
        vec![],
    );
    let results = search_profile_cache(&pc, "bbc");
    assert_eq!(results.len(), 1);
    assert_eq!(results[0].kind, "live");
    assert_eq!(results[0].name, "BBC One");
    assert_eq!(results[0].id, 1);
}

#[test]
fn matches_vod_and_series() {
    let pc = make_cache(
        vec![],
        vec![("Action", vec![vod_stream(10, "Batman Begins")])],
        vec![("Drama", vec![series_item(20, "Batman: The Series")])],
    );
    let results = search_profile_cache(&pc, "batman");
    assert_eq!(results.len(), 2);
    let kinds: Vec<&str> = results.iter().map(|r| r.kind.as_str()).collect();
    assert!(kinds.contains(&"movie"));
    assert!(kinds.contains(&"show"));
}

#[test]
fn deduplicates_live_streams_across_categories() {
    // Same stream_id appearing in two categories should only appear once.
    let pc = make_cache(
        vec![
            ("Cat A", vec![live_stream(1, "BBC One")]),
            ("Cat B", vec![live_stream(1, "BBC One")]),
        ],
        vec![],
        vec![],
    );
    let results = search_profile_cache(&pc, "bbc");
    assert_eq!(results.len(), 1);
}

#[test]
fn results_sorted_by_kind_then_name() {
    let pc = make_cache(
        vec![("News", vec![live_stream(1, "BBC One"), live_stream(2, "Al Jazeera")])],
        vec![("Action", vec![vod_stream(10, "Batman")])],
        vec![],
    );
    let results = search_profile_cache(&pc, "a");
    // kind order: live < movie < show (alphabetical)
    for w in results.windows(2) {
        let ord = w[0].kind.cmp(&w[1].kind).then(w[0].name.cmp(&w[1].name));
        assert!(ord != std::cmp::Ordering::Greater, "results not sorted: {:?} before {:?}", w[0].name, w[1].name);
    }
}

#[test]
fn sorted_results_exact_order() {
    let pc = make_cache(
        vec![("News", vec![live_stream(1, "BBC One"), live_stream(2, "Al Jazeera")])],
        vec![("Action", vec![vod_stream(10, "Batman")])],
        vec![("Drama", vec![series_item(3, "Alias")])],
    );
    let names: Vec<(String, String)> = search_profile_cache(&pc, "a")
        .into_iter()
        .map(|r| (r.kind, r.name))
        .collect();
    assert_eq!(
        names,
        vec![
            ("live".to_string(), "Al Jazeera".to_string()),
            ("movie".to_string(), "Batman".to_string()),
            ("show".to_string(), "Alias".to_string()),
        ]
    );
}

#[test]
fn same_id_in_different_kinds_is_kept() {
    let pc = make_cache(
        vec![("N", vec![live_stream(5, "Sky")])],
        vec![("M", vec![vod_stream(5, "Sky Movie")])],
        vec![],
    );
    assert_eq!(search_profile_cache(&pc, "sky").len(), 2);
}

#[test]
fn search_all_profiles_blank_query_and_order() {
    let a = make_cache(vec![("N", vec![live_stream(1, "BBC One")])], vec![], vec![]);
    let b = make_cache(vec![], vec![("M", vec![vod_stream(2, "The BBC Story")])], vec![]);
    let c = make_cache(vec![("N", vec![live_stream(3, "CNN")])], vec![], vec![]);
    let caches = vec![
        Entry { key: "zeta".to_string(), value: a },
        Entry { key: "alpha".to_string(), value: b },
        Entry { key: "mid".to_string(), value: c },
    ];
    assert!(search_all_profiles(&caches, "   ").is_empty());
    assert!(search_all_profiles(&caches, "").is_empty());
    let all = search_all_profiles(&caches, "BBC");
    let profiles: Vec<&str> = all.iter().map(|p| p.profile.as_str()).collect();
    assert_eq!(profiles, vec!["alpha", "zeta"]);
    assert_eq!(all[0].results[0].kind, "movie");
    assert_eq!(all[1].results[0].id, 1);
}
