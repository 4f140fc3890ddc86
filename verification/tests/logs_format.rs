use tunedesk::logs::{format_ts, log_line, log_needs_rotation, should_log, try_format_ts, LogLevel};

#[test]
fn log_level_from_str_info() {
    assert_eq!(LogLevel::from_str("info"), LogLevel::Info);
}

#[test]
fn log_level_from_str_debug() {
    assert_eq!(LogLevel::from_str("debug"), LogLevel::Debug);
}

#[test]
fn log_level_from_str_unknown_defaults_to_info() {
    assert_eq!(LogLevel::from_str("unknown"), LogLevel::Info);
    assert_eq!(LogLevel::from_str(""), LogLevel::Info);
    assert_eq!(LogLevel::from_str("INFO"), LogLevel::Info);
}

#[test]
fn log_level_as_str() {
    assert_eq!(LogLevel::Info.as_str(), "info");
    assert_eq!(LogLevel::Debug.as_str(), "debug");
}

#[test]
fn log_level_round_trips_through_its_name() {
    for l in [LogLevel::Info, LogLevel::Debug] {
        assert_eq!(LogLevel::from_str(l.as_str()), l);
    }
}

#[test]
fn debug_messages_need_debug_level() {
    assert!(should_log(LogLevel::Info, LogLevel::Info));
    assert!(should_log(LogLevel::Info, LogLevel::Debug));
    assert!(should_log(LogLevel::Debug, LogLevel::Debug));
    assert!(!should_log(LogLevel::Debug, LogLevel::Info));
}

#[test]
fn format_ts_known_values() {
    assert_eq!(format_ts(0), "1970-01-01 00:00:00");
    assert_eq!(format_ts(1_704_067_200), "2024-01-01 00:00:00");
    assert_eq!(format_ts(1_704_067_200 + 59 * 86400 + 3661), "2024-02-29 01:01:01");
    assert_eq!(format_ts(951_782_400), "2000-02-29 00:00:00");
    assert_eq!(format_ts(86399), "1970-01-01 23:59:59");
}

#[test]
fn try_format_ts_small_times() {
    assert_eq!(try_format_ts(60), Some("1970-01-01 00:01:00".to_string()));
    assert_eq!(try_format_ts(4_102_444_800), Some("2100-01-01 00:00:00".to_string()));
}

#[test]
fn log_line_layout() {
    assert_eq!(
        log_line(0, LogLevel::Info, "cache", "Cache saved"),
        "1970-01-01 00:00:00 [INFO ] [cache] Cache saved\n"
    );
    assert_eq!(
        log_line(1_704_067_200, LogLevel::Debug, "m3u8", "x"),
        "2024-01-01 00:00:00 [DEBUG] [m3u8] x\n"
    );
}

#[test]
fn log_rotation_limits() {
    assert!(!log_needs_rotation(None, 0));
    assert!(!log_needs_rotation(Some(7 * 24 * 3600), 1024 * 1024));
    assert!(log_needs_rotation(Some(7 * 24 * 3600 + 1), 0));
    assert!(log_needs_rotation(None, 1024 * 1024 + 1));
}
