use tunedesk::keyed::Entry;
use tunedesk::playback::{
    audio_preference_missed, live_mpv_args, lua_path, mpv_args, progress_script, subtitle_preference_missed,
    SCRIPT_HEAD, SCRIPT_TAIL,
};
use tunedesk::settings::Preferences;
use tunedesk::watched::{
    insert_watched, progress_file_name, remove_progress, remove_watched, safe_profile_name, watched_among,
    watched_file_name,
};
use tunedesk::xtream::{
    episode_key, episode_url, live_stream_url, movie_key, movie_url, series_info_url, short_epg_url, vod_info_url,
    xmltv_url,
};
use tunedesk::profiles::ProfileCredentials;

fn s(v: &[&str]) -> Vec<String> {
    v.iter().map(|x| x.to_string()).collect()
}

#[test]
fn player_command_lines() {
    let args = mpv_args(
        "http://u".to_string(),
        "/tmp/a.lua",
        Some("12.5".to_string()),
        Some("80".to_string()),
        Some("off".to_string()),
        Some("fr".to_string()),
        Some("/res/mpv-config".to_string()),
    );
    assert_eq!(
        args,
        s(&[
            "http://u",
            "--script=/tmp/a.lua",
            "--fs",
            "--start=12.5",
            "--volume=80",
            "--sid=no",
            "--alang=fr",
            "--config-dir=/res/mpv-config"
        ])
    );
    let args = mpv_args("u".to_string(), "x", None, None, Some("de".to_string()), Some(String::new()), None);
    assert_eq!(args, s(&["u", "--script=x", "--fs", "--slang=de"]));
    assert_eq!(live_mpv_args("u".to_string(), None), s(&["u", "--fs"]));
    assert_eq!(live_mpv_args("u".to_string(), Some("d".to_string())), s(&["u", "--fs", "--config-dir=d"]));
}

#[test]
fn progress_script_embeds_the_path() {
    assert_eq!(lua_path(r"C:\Temp\x.json"), "C:/Temp/x.json");
    let script = progress_script(r"C:\Temp\x.json");
    assert_eq!(script, format!("{}C:/Temp/x.json{}", SCRIPT_HEAD, SCRIPT_TAIL));
    assert!(script.starts_with("local last_pos = 0\n"));
    assert!(script.contains("io.open(\"C:/Temp/x.json\", \"w\")"));
    assert!(script.contains("'{\"position\":%f,\"duration\":%f,\"volume\":%f,\"sub_lang\":\"%s\",\"audio_lang\":\"%s\"}'"));
    assert!(script.ends_with("end)"));
}

#[test]
fn language_preference_checks() {
    let o = |x: &str| Some(x.to_string());
    assert!(subtitle_preference_missed(&o("en"), &None));
    assert!(subtitle_preference_missed(&o("en"), &o("off")));
    assert!(!subtitle_preference_missed(&o("en"), &o("en")));
    assert!(!subtitle_preference_missed(&o("off"), &o("off")));
    assert!(!subtitle_preference_missed(&None, &None));
    assert!(audio_preference_missed(&o("fr"), &o("en")));
    assert!(!audio_preference_missed(&o("fr"), &o("")));
    assert!(!audio_preference_missed(&o("fr"), &None));
    assert!(!audio_preference_missed(&o(""), &o("en")));
    assert!(!audio_preference_missed(&o("fr"), &o("fr")));
}

#[test]
fn preferences_updates() {
    let mut p = Preferences::new();
    assert!(p.subtitle_lang.is_none() && p.theme.is_none() && p.window_width.is_none());
    p.apply_player_languages(Some("off".to_string()), Some(String::new()));
    assert_eq!(p.subtitle_lang, Some("off".to_string()));
    assert_eq!(p.audio_lang, None);
    p.apply_player_languages(None, Some("de".to_string()));
    assert_eq!(p.subtitle_lang, Some("off".to_string()));
    assert_eq!(p.audio_lang, Some("de".to_string()));
    p.record_window(1280, 720, false);
    p.record_window(1920, 1080, true);
    assert_eq!(p.window_width, Some(1280));
    assert_eq!(p.window_height, Some(720));
    assert_eq!(p.window_maximized, Some(true));
}

#[test]
fn watched_set_and_progress() {
    let mut set: Vec<String> = vec![];
    assert!(insert_watched(&mut set, &s(&["a", "b", "a"])));
    assert_eq!(set, s(&["a", "b"]));
    assert!(!insert_watched(&mut set, &s(&["b"])));
    assert_eq!(watched_among(&set, &s(&["x", "b", "a", "b"])), s(&["b", "a", "b"]));
    assert!(remove_watched(&mut set, &s(&["a", "z"])));
    assert!(!remove_watched(&mut set, &s(&["a"])));
    assert_eq!(watched_among(&set, &s(&["a"])), Vec::<String>::new());
    let mut map = vec![
        Entry { key: "a".to_string(), value: 1u32 },
        Entry { key: "b".to_string(), value: 2u32 },
    ];
    assert!(remove_progress(&mut map, &s(&["b", "c"])));
    assert_eq!(map.len(), 1);
    assert!(!remove_progress(&mut map, &s(&["c"])));
    assert_eq!(safe_profile_name("a/b\\c\0d"), "a_b_c_d");
    assert_eq!(progress_file_name("x/y"), "progress_x_y.json");
    assert_eq!(watched_file_name("me"), "watched_me.json");
}

#[test]
fn server_urls() {
    let c = ProfileCredentials { url: "http://s:80".to_string(), username: "u".to_string(), password: "p".to_string() };
    assert_eq!(live_stream_url(&c, 5), "http://s:80/u/p/5.ts");
    assert_eq!(movie_url(&c, 5, ""), "http://s:80/movie/u/p/5.mkv");
    assert_eq!(movie_url(&c, 5, "mp4"), "http://s:80/movie/u/p/5.mp4");
    assert_eq!(episode_url(&c, "99", "avi"), "http://s:80/series/u/p/99.avi");
    assert_eq!(episode_url(&c, "99", ""), "http://s:80/series/u/p/99.mkv");
    assert_eq!(xmltv_url(&c), "http://s:80/xmltv.php?username=u&password=p");
    assert_eq!(
        short_epg_url(&c, 12),
        "http://s:80/player_api.php?username=u&password=p&action=get_short_epg&stream_id=12&limit=10"
    );
    assert_eq!(vod_info_url(&c, 3), "http://s:80/player_api.php?username=u&password=p&action=get_vod_info&vod_id=3");
    assert_eq!(
        series_info_url(&c, 4),
        "http://s:80/player_api.php?username=u&password=p&action=get_series_info&series_id=4"
    );
    assert_eq!(movie_key(5), "movie_5");
    assert_eq!(episode_key("99"), "episode_99");
}
