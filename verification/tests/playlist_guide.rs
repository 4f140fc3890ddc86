use tunedesk::cache::{plan_channel_epg, EPG_TTL};
use tunedesk::cache::ProfileCache;
use tunedesk::epg::{guide_from_events, parse_epg_xml};
use tunedesk::m3u8::{parse_playlist, plan_m3u8_prime};
use tunedesk::xml::{XmlAttribute, XmlEvent};

const PLAYLIST: &str = "#EXTM3U\n\
#EXTINF:-1 tvg-id=\"bbc1.uk\" tvg-logo=\"http://l/bbc.png\" group-title=\"News\",BBC One\n\
http://s/1.ts\n\
#EXTINF:-1 group-title=\"Sport\",Sky, Sports\n\
#EXTVLCOPT:foo\n\
\n\
  http://s/2.ts  \n\
#EXTINF:-1 tvg-id=\"\" group-title=\"News\",  CNN  \r\n\
http://s/3.ts\r\n\
#EXTINF:-1,No URL\n";

#[test]
fn playlist_entries_groups_and_ids() {
    let p = parse_playlist(PLAYLIST);
    assert_eq!(p.entries.len(), 3);
    let names: Vec<&str> = p.entries.iter().map(|e| e.stream.name.as_str()).collect();
    assert_eq!(names, vec!["BBC One", "Sports", "CNN"]);
    let urls: Vec<&str> = p.entries.iter().map(|e| e.url.as_str()).collect();
    assert_eq!(urls, vec!["http://s/1.ts", "http://s/2.ts", "http://s/3.ts"]);
    assert_eq!(p.entries[0].stream.stream_id, 1);
    assert_eq!(p.entries[2].stream.num, 3);
    assert_eq!(p.entries[0].stream.stream_icon, "http://l/bbc.png");
    assert_eq!(p.entries[0].stream.epg_channel_id, "bbc1.uk");
    let cats: Vec<&str> = p.categories.iter().map(|c| c.category_id.as_str()).collect();
    assert_eq!(cats, vec!["News", "Sport"]);
    assert_eq!(p.categories[1].category_name, "Sport");
    assert_eq!(p.groups.len(), 2);
    assert_eq!(p.groups[0].key, "News");
    assert_eq!(p.groups[0].items.len(), 2);
    assert_eq!(p.groups[0].items[1].name, "CNN");
    assert_eq!(p.tvg_ids.len(), 1);
    assert_eq!(p.tvg_ids[0].stream_id, 1);
    assert_eq!(p.tvg_ids[0].tvg_id, "bbc1.uk");
}

#[test]
fn playlist_without_group_is_uncategorized() {
    let p = parse_playlist("#EXTINF:-1,Lonely\nhttp://x\n");
    assert_eq!(p.categories.len(), 1);
    assert_eq!(p.categories[0].category_id, "Uncategorized");
    assert_eq!(p.entries[0].stream.name, "Lonely");
}

#[test]
fn playlist_stored_in_cache() {
    let p = parse_playlist(PLAYLIST);
    let mut pc = ProfileCache::new();
    assert!(!pc.playlist_fresh(100));
    pc.store_playlist(p, 100);
    assert!(pc.playlist_fresh(101));
    assert_eq!(pc.stream_url(2), Some("http://s/2.ts".to_string()));
    assert_eq!(pc.stream_url(9), None);
    assert_eq!(pc.channel_tvg_id(1), Some("bbc1.uk".to_string()));
    assert_eq!(pc.channel_tvg_id(3), None);
    assert_eq!(pc.categories_at, 100);
}

#[test]
fn m3u8_prime_plan() {
    let plan = plan_m3u8_prime(None, "", 10);
    assert!(plan.fetch_playlist);
    assert!(!plan.fetch_guide);
    let mut pc = ProfileCache::new();
    pc.store_playlist(parse_playlist(PLAYLIST), 10);
    let plan = plan_m3u8_prime(Some(&pc), "http://epg", 11);
    assert!(!plan.fetch_playlist);
    assert!(plan.fetch_guide);
    pc.m3u8_epg_at = 11;
    assert!(!plan_m3u8_prime(Some(&pc), "http://epg", 12).fetch_guide);
}

const GUIDE: &str = r#"<?xml version="1.0" encoding="UTF-8"?>
<tv>
  <channel id="bbc1.uk"><display-name>BBC One</display-name></channel>
  <programme start="20240101000000 +0000" stop="20240101010000 +0000" channel="bbc1.uk">
    <title lang="en">News &amp; Weather</title>
    <desc>Headlines</desc>
  </programme>
  <programme start="20240101010000 +0000" stop="20240101020000 +0000" channel="cnn">
    <title>Later</title>
  </programme>
  <programme start="20240101020000 +0000" channel="bbc1.uk">
    <title>Film</title>
  </programme>
  <programme start="bad" channel="bbc1.uk"><title>Skipped</title></programme>
  <programme start="20240101030000"><title>No channel</title></programme>
</tv>"#;

#[test]
fn guide_listings_by_channel() {
    let g = parse_epg_xml(GUIDE.as_bytes()).unwrap();
    let keys: Vec<&str> = g.iter().map(|x| x.key.as_str()).collect();
    assert_eq!(keys, vec!["bbc1.uk", "cnn"]);
    assert_eq!(g[0].items.len(), 2);
    let first = &g[0].items[0];
    assert_eq!(first.title, "TmV3cyAmIFdlYXRoZXI=");
    assert_eq!(first.description, "SGVhZGxpbmVz");
    assert_eq!(first.start_timestamp, 1_704_067_200);
    assert_eq!(first.stop_timestamp, 1_704_070_800);
    assert_eq!(g[0].items[1].stop_timestamp, 0);
    assert_eq!(g[0].items[1].description, "");
    assert_eq!(g[1].items[0].title, "TGF0ZXI=");
}

#[test]
fn guide_of_empty_or_broken_document() {
    assert_eq!(parse_epg_xml(b"").unwrap().len(), 0);
    assert_eq!(parse_epg_xml(b"<tv><programme").unwrap().len(), 0);
}

#[test]
fn guide_from_hand_made_events() {
    let attr = |k: &str, v: &str| Some(XmlAttribute { key: k.as_bytes().to_vec(), value: v.as_bytes().to_vec() });
    let events = vec![
        XmlEvent::Start {
            name: b"programme".to_vec(),
            attributes: vec![attr("channel", "c1"), attr("start", "19700101000100"), None],
        },
        XmlEvent::Start { name: b"title".to_vec(), attributes: vec![] },
        XmlEvent::Text { text: Some("M".to_string()) },
        XmlEvent::End { name: b"title".to_vec() },
        XmlEvent::End { name: b"programme".to_vec() },
        XmlEvent::Eof,
        XmlEvent::Start { name: b"programme".to_vec(), attributes: vec![attr("channel", "late")] },
    ];
    let g = guide_from_events(&events).unwrap();
    assert_eq!(g.len(), 1);
    assert_eq!(g[0].key, "c1");
    assert_eq!(g[0].items[0].title, "TQ==");
    assert_eq!(g[0].items[0].start_timestamp, 60);
}

#[test]
fn channel_guide_cache_read_after_write() {
    let mut pc = ProfileCache::new();
    assert_eq!(plan_channel_epg(None, 5, 100), None);
    assert_eq!(plan_channel_epg(Some(&pc), 5, 100), None);
    pc.store_channel_epg(5, vec!["{\"title\":\"x\"}".to_string()], 100);
    assert_eq!(pc.epg[0].key, "5");
    assert_eq!(plan_channel_epg(Some(&pc), 5, 100 + EPG_TTL - 1), Some(vec!["{\"title\":\"x\"}".to_string()]));
    assert_eq!(plan_channel_epg(Some(&pc), 5, 100 + EPG_TTL), None);
    assert_eq!(plan_channel_epg(Some(&pc), 6, 101), None);
    pc.store_channel_epg(5, vec![], 200);
    assert_eq!(pc.epg.len(), 1);
    assert_eq!(plan_channel_epg(Some(&pc), 5, 201), Some(vec![]));
}

#[test]
fn playlist_channel_guide_by_tvg_id() {
    let mut pc = ProfileCache::new();
    pc.store_playlist(parse_playlist(PLAYLIST), 10);
    let guide = parse_epg_xml(GUIDE.as_bytes()).unwrap();
    pc.store_playlist_guide(guide, 11);
    assert_eq!(pc.m3u8_epg_at, 11);
    let g = pc.channel_guide(1);
    assert_eq!(g.len(), 2);
    assert_eq!(g[0].start_timestamp, 1_704_067_200);
    assert!(pc.channel_guide(3).is_empty());
    assert!(pc.channel_guide(99).is_empty());
    pc.store_xtream_guide(vec![], 12);
    assert_eq!(pc.xtream_epg_at, 12);
    assert!(pc.xtream_guide_fresh(13));
}
