use zj_cal::display::{fmt_datetime, fmt_day_header, fmt_relative_time, fmt_time, fmt_time_in_group};
use zj_cal::parse::parse_datetime;
use zj_cal::time::Date;

fn fmt(event: &str, now: &str) -> String {
    let event_dt = parse_datetime(event).unwrap();
    let now_dt = parse_datetime(now).unwrap();
    fmt_relative_time(event_dt, now_dt, true)
}

#[test]
fn test_now() {
    assert_eq!(fmt("2024-01-15 10:00", "2024-01-15 10:00"), "now");
}

#[test]
fn test_minutes() {
    // < 10 min: exact
    assert_eq!(fmt("2024-01-15 10:05", "2024-01-15 10:00"), "in 5 min");
    assert_eq!(fmt("2024-01-15 10:09", "2024-01-15 10:00"), "in 9 min");
    // >= 10 min: rounded to nearest 5
    assert_eq!(fmt("2024-01-15 10:10", "2024-01-15 10:00"), "in 10 min");
    assert_eq!(fmt("2024-01-15 10:12", "2024-01-15 10:00"), "in 10 min");
    assert_eq!(fmt("2024-01-15 10:13", "2024-01-15 10:00"), "in 15 min");
    assert_eq!(fmt("2024-01-15 10:30", "2024-01-15 10:00"), "in 30 min");
    assert_eq!(fmt("2024-01-15 10:55", "2024-01-15 10:00"), "in 55 min");
    assert_eq!(fmt("2024-01-15 10:56", "2024-01-15 10:00"), "10:56 am (1 hr)");
}

#[test]
fn test_hours_round_down() {
    // 0-19 min past hour rounds down
    assert_eq!(fmt("2024-01-15 11:00", "2024-01-15 10:00"), "11:00 am (1 hr)");
    assert_eq!(fmt("2024-01-15 11:15", "2024-01-15 10:00"), "11:15 am (1 hr)");
    assert_eq!(fmt("2024-01-15 11:19", "2024-01-15 10:00"), "11:19 am (1 hr)");
    assert_eq!(fmt("2024-01-15 12:10", "2024-01-15 10:00"), "12:10 pm (2 hrs)");
}

#[test]
fn test_hours_half() {
    // 20-40 min past hour shows .5
    assert_eq!(fmt("2024-01-15 11:20", "2024-01-15 10:00"), "11:20 am (1.5 hrs)");
    assert_eq!(fmt("2024-01-15 11:30", "2024-01-15 10:00"), "11:30 am (1.5 hrs)");
    assert_eq!(fmt("2024-01-15 11:40", "2024-01-15 10:00"), "11:40 am (1.5 hrs)");
    assert_eq!(fmt("2024-01-15 12:30", "2024-01-15 10:00"), "12:30 pm (2.5 hrs)");
}

#[test]
fn test_hours_round_up() {
    // 41-59 min past hour rounds up
    assert_eq!(fmt("2024-01-15 11:45", "2024-01-15 10:00"), "11:45 am (2 hrs)");
    assert_eq!(fmt("2024-01-15 11:55", "2024-01-15 10:00"), "11:55 am (2 hrs)");
    assert_eq!(fmt("2024-01-15 12:50", "2024-01-15 10:00"), "12:50 pm (3 hrs)");
}

#[test]
fn test_today() {
    assert_eq!(fmt("2024-01-15 18:00", "2024-01-15 10:00"), "today 6:00 pm");
    assert_eq!(fmt("2024-01-15 18:30", "2024-01-15 10:00"), "today 6:30 pm");
}

#[test]
fn test_tomorrow() {
    assert_eq!(fmt("2024-01-16 09:00", "2024-01-15 20:00"), "tmrw 9:00 am");
    assert_eq!(fmt("2024-01-16 14:30", "2024-01-15 20:00"), "tmrw 2:30 pm");
}

#[test]
fn test_all_day_events() {
    // All-day events get "all day" label via fmt_time_in_group
    let event_dt = parse_datetime("2024-01-15 00:00").unwrap();
    let now_dt = parse_datetime("2024-01-15 10:00").unwrap();
    assert_eq!(fmt_time_in_group(event_dt, now_dt, true, true, true), "all day");
    assert_eq!(fmt_time_in_group(event_dt, now_dt, false, true, true), "all day");
}

#[test]
fn test_beyond_24h() {
    // Events >24h away get absolute format
    assert_eq!(fmt("2024-01-17 10:00", "2024-01-15 10:00"), "jan 17 10:00 am");
}

#[test]
fn test_past_events() {
    // Past events get absolute format
    assert_eq!(fmt("2024-01-15 08:00", "2024-01-15 10:00"), "jan 15 8:00 am");
}

#[test]
fn test_fmt_time_both_modes() {
    assert_eq!(fmt_time(9, 5, false), "09:05");
    assert_eq!(fmt_time(23, 59, false), "23:59");
    assert_eq!(fmt_time(0, 5, true), "12:05 am");
    assert_eq!(fmt_time(11, 30, true), "11:30 am");
    assert_eq!(fmt_time(12, 0, true), "12:00 pm");
    assert_eq!(fmt_time(23, 59, true), "11:59 pm");
}

#[test]
fn test_fmt_datetime_midnight_drops_time() {
    assert_eq!(fmt_datetime(parse_datetime("2024-01-15 00:00").unwrap(), true), "jan 15");
    assert_eq!(fmt_datetime(parse_datetime("2024-01-15 10:00").unwrap(), true), "jan 15 10:00 am");
    assert_eq!(fmt_datetime(parse_datetime("2024-12-03 18:30").unwrap(), false), "dec 3 18:30");
}

#[test]
fn test_fmt_day_header_labels() {
    let today = Date { year: 2024, month: 1, day: 15 };
    assert_eq!(fmt_day_header(Date { year: 2024, month: 1, day: 15 }, today), "today");
    assert_eq!(fmt_day_header(Date { year: 2024, month: 1, day: 16 }, today), "tomorrow");
    // 2024-01-22 was a Monday.
    assert_eq!(fmt_day_header(Date { year: 2024, month: 1, day: 22 }, today), "monday, jan 22");
    // A past day is also spelled out.
    assert_eq!(fmt_day_header(Date { year: 2024, month: 1, day: 9 }, today), "tuesday, jan 9");
}
