use chronos::app::format_duration;
use chronos::stats::{day_start, month_start, stat_windows, week_start};
use chronos::util::{is_leap_year, ts_to_date, ts_to_string};

#[test]
fn test_day_start() {
    let ts = 1720000000;
    let ds = day_start(ts);
    assert_eq!(ds % 86400, 0);
    assert!(ds <= ts);
}

#[test]
fn test_week_start() {
    let ts = 1720000000;
    let ws = week_start(ts);
    assert_eq!(ws % 86400, 0);
    assert!(ws <= ts);
}

#[test]
fn test_ts_to_string_epoch() {
    let s = ts_to_string(0);
    assert_eq!(s, "\u{2014}");
}

#[test]
fn test_ts_to_string_known() {
    let s = ts_to_string(946684800);
    assert!(s.contains("2000"));
    assert!(s.contains("00:00:00"));
}

#[test]
fn test_ts_to_date() {
    let d = ts_to_date(946684800);
    assert!(d.contains("2000"));
}

#[test]
fn exact_calendar_values() {
    // 2024-07-03 09:46:40 UTC, a Wednesday.
    let ts = 1720000000;
    assert_eq!(day_start(ts), 1719964800);
    assert_eq!(week_start(ts), 1719705600);
    assert_eq!(month_start(ts), 1719792000);
    assert_eq!(month_start(0), 0);
    assert_eq!(month_start(-5), 0);
    assert_eq!(month_start(31 * 86400), 31 * 86400);
    assert_eq!(day_start(-1), 0);
}

#[test]
fn stat_windows_for_a_moment() {
    let w = stat_windows(1720000000);
    assert_eq!(w.today_start, 1719964800);
    assert_eq!(w.yesterday_start, 1719964800 - 86400);
    assert_eq!(w.week_start, 1719705600);
    assert_eq!(w.month_start, 1719792000);
    assert_eq!(w.end, 1720000001);
}

#[test]
fn leap_years() {
    assert!(is_leap_year(2000));
    assert!(is_leap_year(2024));
    assert!(!is_leap_year(1900));
    assert!(!is_leap_year(2023));
    assert!(is_leap_year(-4));
}

#[test]
fn timestamps_render_exactly() {
    assert_eq!(ts_to_string(1), "1970-01-01 00:00:01");
    assert_eq!(ts_to_string(946684800 + 3661), "2000-01-08 01:01:01");
    assert_eq!(ts_to_date(86400 * 59), "1970-03-01");
    assert_eq!(ts_to_date(-3), "\u{2014}");
}

#[test]
fn durations_render_exactly() {
    assert_eq!(format_duration(0), "0s");
    assert_eq!(format_duration(59), "59s");
    assert_eq!(format_duration(60), "1m 00s");
    assert_eq!(format_duration(305), "5m 05s");
    assert_eq!(format_duration(3723), "1h 02m 03s");
    assert_eq!(format_duration(360000), "100h 00m 00s");
}

#[test]
fn timestamps_begin_with_their_date() {
    for ts in [-5i64, 0, 1, 3661, 86_399, 86_400, 946_684_800 + 3_661, 1_700_000_000] {
        assert!(ts_to_string(ts).starts_with(&ts_to_date(ts)));
    }
    assert_eq!(ts_to_string(0), ts_to_date(0));
}

#[test]
fn stat_windows_before_the_epoch() {
    let w = stat_windows(-100_000);
    assert_eq!(w.today_start, -86_400);
    assert_eq!(w.yesterday_start, -172_800);
    assert_eq!(w.week_start, -345_600);
    assert_eq!(w.month_start, 0);
    assert_eq!(w.end, -99_999);
}

#[test]
fn month_starts_are_their_own_month_start() {
    for ts in [-5i64, 0, 1, 86_399, 1_720_000_000, 1_709_251_199, 951_782_400] {
        let m = month_start(ts);
        assert_eq!(month_start(m), m);
    }
    assert_eq!(month_start(1_720_000_000), 1_719_792_000);
}
