use podaemon::cmd::{parse_line, Cmd};
use podaemon::log::{get_cursor_bound, EventLog, LOG_CAPACITY};
use podaemon::player::clktime_to_hms;
use podaemon::text::{contains, decimal_string, last_n};

#[test]
fn log_keeps_the_newest_messages() {
    let mut log = EventLog::new();
    assert_eq!(get_cursor_bound(&log), 0);
    for i in 0..LOG_CAPACITY + 5 {
        log.push(format!("m{i}"));
    }
    assert_eq!(get_cursor_bound(&log), LOG_CAPACITY);
    assert_eq!(log.entries[0], format!("m{}", LOG_CAPACITY + 4));
    assert_eq!(log.entries[LOG_CAPACITY - 1], "m5");
}

#[test]
fn last_n_takes_trailing_characters() {
    assert_eq!(last_n("abcdef", 3), "def");
    assert_eq!(last_n("ab", 5), "ab");
    assert_eq!(last_n("ab", 0), "");
    assert_eq!(last_n("h\u{e9}llo", 4), "\u{e9}llo");
}

#[test]
fn substring_search() {
    assert!(contains("/a/uridecodebin0", "uridecodebin"));
    assert!(contains("x", ""));
    assert!(!contains("uridecode", "uridecodebin"));
}

#[test]
fn decimals() {
    assert_eq!(decimal_string(0), "0");
    assert_eq!(decimal_string(907), "907");
    assert_eq!(decimal_string(u64::MAX as u128), "18446744073709551615");
    assert_eq!(decimal_string(u128::MAX), "340282366920938463463374607431768211455");
}

#[test]
fn malformed_line_logs_exactly_one_diagnostic() {
    let mut log = EventLog::new();
    assert_eq!(parse_line("seek(abc)", &mut log), None);
    assert_eq!(get_cursor_bound(&log), 1);
    assert_eq!(log.entries[0], "parse failed: seek(abc)");
    assert_eq!(parse_line("seek(42)", &mut log), Some(Cmd::Seek(42)));
    assert_eq!(get_cursor_bound(&log), 1);
}

#[test]
fn hours_minutes_seconds() {
    assert_eq!(clktime_to_hms(0), (0, 0, 0));
    assert_eq!(clktime_to_hms(3725), (1, 2, 5));
    assert_eq!(clktime_to_hms(59), (0, 0, 59));
}
