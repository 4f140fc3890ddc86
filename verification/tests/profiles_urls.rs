use tunedesk::keyed::Entry;
use tunedesk::profiles::{
    add_profile_name, base_url_of, extract_base_url, forget_profile, is_m3u8_profile, lookup_credentials,
    lookup_m3u8_credentials, register_m3u8_profile, register_xtream_profile, remove_profile_name,
    M3u8Credentials, ProfileCredentials, UrlParts,
};

#[test]
fn extract_base_url_with_port() {
    assert_eq!(
        extract_base_url("http://example.com:8080/player_api.php?username=u&password=p"),
        Ok("http://example.com:8080".to_string())
    );
}

#[test]
fn extract_base_url_without_port() {
    assert_eq!(
        extract_base_url("https://example.com/player_api.php"),
        Ok("https://example.com".to_string())
    );
}

#[test]
fn extract_base_url_strips_path_and_query() {
    assert_eq!(
        extract_base_url("http://tv.example.com:1234/get.php?username=u&password=p&type=m3u_plus"),
        Ok("http://tv.example.com:1234".to_string())
    );
}

#[test]
fn extract_base_url_invalid_returns_err() {
    assert!(extract_base_url("not-a-url").is_err());
    assert!(extract_base_url("").is_err());
}

#[test]
fn extract_base_url_default_port_is_stripped() {
    // The url crate normalises default ports (80 for http) to None,
    // so the result omits the port number.
    assert_eq!(
        extract_base_url("http://tv.example.com:80"),
        Ok("http://tv.example.com".to_string())
    );
}

#[test]
fn extract_base_url_error_messages() {
    assert_eq!(
        extract_base_url("not-a-url"),
        Err("Invalid URL: relative URL without a base".to_string())
    );
    assert_eq!(extract_base_url("data:text/plain,hi"), Err("URL has no host".to_string()));
}

#[test]
fn base_url_of_parts() {
    let with_port = UrlParts { scheme: "http".to_string(), host: Some("h.example".to_string()), port: Some(8080) };
    assert_eq!(base_url_of(Ok(with_port)), Ok("http://h.example:8080".to_string()));
    let no_port = UrlParts { scheme: "https".to_string(), host: Some("h".to_string()), port: None };
    assert_eq!(base_url_of(Ok(no_port)), Ok("https://h".to_string()));
    let no_host = UrlParts { scheme: "mailto".to_string(), host: None, port: None };
    assert_eq!(base_url_of(Ok(no_host)), Err("URL has no host".to_string()));
    assert_eq!(base_url_of(Err("empty host".to_string())), Err("Invalid URL: empty host".to_string()));
}

#[test]
fn profile_names_are_listed_once() {
    let mut names: Vec<String> = vec![];
    assert!(add_profile_name(&mut names, "a"));
    assert!(add_profile_name(&mut names, "b"));
    assert!(!add_profile_name(&mut names, "a"));
    assert_eq!(names, vec!["a".to_string(), "b".to_string()]);
    remove_profile_name(&mut names, "a");
    assert_eq!(names, vec!["b".to_string()]);
    remove_profile_name(&mut names, "zzz");
    assert_eq!(names, vec!["b".to_string()]);
}

#[test]
fn xtream_profile_register_lookup_forget() {
    let mut creds: Vec<Entry<ProfileCredentials>> = vec![];
    let mut names: Vec<String> = vec![];
    let r = register_xtream_profile(
        &mut creds,
        &mut names,
        "home",
        "http://tv.example.com:8080/player_api.php?x=1",
        "u".to_string(),
        "p".to_string(),
    );
    assert_eq!(r, Ok(true));
    let c = lookup_credentials(&creds, "home").ok().unwrap();
    assert_eq!(c.url, "http://tv.example.com:8080");
    assert_eq!(c.username, "u");
    assert_eq!(c.password, "p");
    // saving again replaces the credentials and leaves the list alone
    let r2 = register_xtream_profile(&mut creds, &mut names, "home", "https://other.example", "v".to_string(), "q".to_string());
    assert_eq!(r2, Ok(false));
    assert_eq!(creds.len(), 1);
    assert_eq!(lookup_credentials(&creds, "home").ok().unwrap().url, "https://other.example");
    // a bad address changes nothing
    let bad = register_xtream_profile(&mut creds, &mut names, "x", "nope", "a".to_string(), "b".to_string());
    assert!(bad.is_err());
    assert_eq!(names, vec!["home".to_string()]);
    assert_eq!(lookup_credentials(&creds, "x").err(), Some("Profile 'x' not found".to_string()));

    let mut m3u: Vec<Entry<M3u8Credentials>> = vec![];
    assert!(register_m3u8_profile(&mut m3u, &mut names, "tv", "http://m/list.m3u".to_string(), String::new()));
    assert!(is_m3u8_profile(&m3u, "tv"));
    assert!(!is_m3u8_profile(&m3u, "home"));
    assert_eq!(lookup_m3u8_credentials(&m3u, "tv").ok().unwrap().m3u_url, "http://m/list.m3u");
    assert_eq!(lookup_m3u8_credentials(&m3u, "zz").err(), Some("M3U8 profile 'zz' not found".to_string()));

    let mut icons: Vec<Entry<String>> = vec![Entry { key: "home".to_string(), value: "🐱".to_string() }];
    forget_profile(&mut creds, &mut m3u, &mut names, &mut icons, "home");
    assert!(creds.is_empty());
    assert!(icons.is_empty());
    assert_eq!(names, vec!["tv".to_string()]);
    assert!(is_m3u8_profile(&m3u, "tv"));
}
