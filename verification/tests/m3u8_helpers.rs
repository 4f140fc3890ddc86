use tunedesk::m3u8::{attr_value, b64_encode, date_to_unix, parse_xmltv_time, xmltv_time_checked};

#[test]
fn attr_value_extracts_known_keys() {
    let line = r#"#EXTINF:-1 tvg-id="BBC1" tvg-logo="http://logo.png" group-title="News",BBC One"#;
    assert_eq!(attr_value(line, "tvg-id"), Some("BBC1"));
    assert_eq!(attr_value(line, "tvg-logo"), Some("http://logo.png"));
    assert_eq!(attr_value(line, "group-title"), Some("News"));
}

#[test]
fn attr_value_missing_key_returns_none() {
    let line = r#"#EXTINF:-1 tvg-id="BBC1",BBC One"#;
    assert_eq!(attr_value(line, "missing-key"), None);
}

#[test]
fn attr_value_empty_value() {
    let line = r#"#EXTINF:-1 tvg-id="" group-title="Sports",Channel"#;
    assert_eq!(attr_value(line, "tvg-id"), Some(""));
}

#[test]
fn attr_value_unterminated_is_none() {
    assert_eq!(attr_value(r#"x tvg-id="abc"#, "tvg-id"), None);
}

#[test]
fn b64_encode_empty_string() {
    assert_eq!(b64_encode(""), "");
}

#[test]
fn b64_encode_single_byte() {
    assert_eq!(b64_encode("M"), "TQ==");
}

#[test]
fn b64_encode_two_bytes() {
    assert_eq!(b64_encode("Ma"), "TWE=");
}

#[test]
fn b64_encode_three_bytes_no_padding() {
    assert_eq!(b64_encode("Man"), "TWFu");
}

#[test]
fn b64_encode_longer_string() {
    assert_eq!(b64_encode("Hello"), "SGVsbG8=");
    assert_eq!(b64_encode("Hello, World!"), "SGVsbG8sIFdvcmxkIQ==");
}

#[test]
fn b64_encode_multibyte_and_length() {
    // "é" is two bytes in UTF-8
    assert_eq!(b64_encode("é"), "w6k=");
    for s in ["", "a", "ab", "abc", "abcd", "ééé"] {
        assert_eq!(b64_encode(s).len(), (s.len() + 2) / 3 * 4);
    }
}

#[test]
fn date_to_unix_epoch() {
    assert_eq!(date_to_unix(1970, 1, 1), 0);
}

#[test]
fn date_to_unix_known_date() {
    // 2024-01-01 00:00:00 UTC = 1704067200
    assert_eq!(date_to_unix(2024, 1, 1), 1_704_067_200);
}

#[test]
fn date_to_unix_leap_day() {
    // 2024-02-29 (leap day) = 2024-01-01 + 59 days
    assert_eq!(date_to_unix(2024, 2, 29), 1_704_067_200 + 59 * 86400);
}

#[test]
fn date_to_unix_before_epoch() {
    assert_eq!(date_to_unix(1969, 12, 31), -86400);
}

#[test]
fn parse_xmltv_time_utc() {
    assert_eq!(parse_xmltv_time("20240101000000 +0000"), 1_704_067_200);
}

#[test]
fn parse_xmltv_time_positive_offset() {
    // 01:00 local with +01:00 = 00:00 UTC
    assert_eq!(parse_xmltv_time("20240101010000 +0100"), 1_704_067_200);
}

#[test]
fn parse_xmltv_time_negative_offset() {
    // Dec 31 2023 23:00 with -01:00 = 2024-01-01 00:00 UTC
    assert_eq!(parse_xmltv_time("20231231230000 -0100"), 1_704_067_200);
}

#[test]
fn parse_xmltv_time_no_timezone_assumes_utc() {
    assert_eq!(parse_xmltv_time("20240101000000"), 1_704_067_200);
}

#[test]
fn parse_xmltv_time_too_short_returns_zero() {
    assert_eq!(parse_xmltv_time("2024"), 0);
    assert_eq!(parse_xmltv_time(""), 0);
}

#[test]
fn parse_xmltv_time_half_hour_offset() {
    assert_eq!(parse_xmltv_time("20240101053000 +0530"), 1_704_067_200);
}

#[test]
fn xmltv_time_checked_refuses_split_characters() {
    // a multi-byte character across a slicing boundary
    assert_eq!(xmltv_time_checked("2024010100000é"), None);
    assert_eq!(xmltv_time_checked("20240101000000"), Some(1_704_067_200));
}

#[test]
fn guide_dates_read_back_in_the_log_calendar() {
    for (y, m, d) in [(1970, 1, 1), (2000, 2, 29), (2024, 2, 29), (2024, 12, 31), (2100, 3, 1)] {
        let ts = date_to_unix(y, m, d);
        assert_eq!(tunedesk::logs::format_ts(ts), format!("{:04}-{:02}-{:02} 00:00:00", y, m, d));
    }
}

#[test]
fn next_day_is_one_day_later() {
    for (a, b) in [
        ((1, 1, 1), (1, 1, 2)),
        ((1999, 12, 31), (2000, 1, 1)),
        ((2000, 2, 28), (2000, 2, 29)),
        ((2000, 2, 29), (2000, 3, 1)),
        ((2100, 2, 28), (2100, 3, 1)),
        ((9999, 12, 31), (10000, 1, 1)),
    ] {
        assert_eq!(date_to_unix(b.0, b.1, b.2), date_to_unix(a.0, a.1, a.2) + 86400);
    }
}
