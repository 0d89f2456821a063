use zj_cal::event::Event;
use zj_cal::ics::parse_ics;
use zj_cal::parse::parse_datetime;
use zj_cal::select::filter_future;
use zj_cal::time::{Date, DateTime};

const ICS_TIMED_EVENT: &str = "BEGIN:VCALENDAR\nVERSION:2.0\nBEGIN:VEVENT\nDTSTART:20240115T100000\nDTEND:20240115T110000\nSUMMARY:Team Standup\nLOCATION:https://zoom.us/j/123\nEND:VEVENT\nEND:VCALENDAR\n";

const ICS_ALL_DAY_EVENT: &str = "BEGIN:VCALENDAR\nVERSION:2.0\nBEGIN:VEVENT\nDTSTART;VALUE=DATE:20240115\nDTEND;VALUE=DATE:20240116\nSUMMARY:Company Holiday\nEND:VEVENT\nEND:VCALENDAR\n";

const ICS_UTC_EVENT: &str = "BEGIN:VCALENDAR\nVERSION:2.0\nBEGIN:VEVENT\nDTSTART:20240115T150000Z\nDTEND:20240115T160000Z\nSUMMARY:UTC Meeting\nEND:VEVENT\nEND:VCALENDAR\n";

const ICS_MULTIPLE_EVENTS: &str = "BEGIN:VCALENDAR\nVERSION:2.0\nBEGIN:VEVENT\nDTSTART:20240115T100000\nSUMMARY:First Event\nEND:VEVENT\nBEGIN:VEVENT\nDTSTART:20240115T140000\nSUMMARY:Second Event\nEND:VEVENT\nEND:VCALENDAR\n";

fn dt_default() -> DateTime {
    DateTime { date: Date { year: 1970, month: 1, day: 1 }, hour: 0, minute: 0, second: 0 }
}

fn ymd(year: i32, month: u8, day: u8) -> Date {
    Date { year, month, day }
}

#[test]
fn test_parse_timed_event() {
    let events = parse_ics(ICS_TIMED_EVENT.as_bytes(), 0).unwrap();
    assert_eq!(events.len(), 1);
    assert_eq!(events[0].summary, "Team Standup");
    assert_eq!(events[0].start.hour, 10);
    assert_eq!(events[0].start.minute, 0);
    assert_eq!(events[0].location, Some("https://zoom.us/j/123".to_string()));
    assert!(events[0].is_video_call());
}

#[test]
fn test_parse_all_day_event() {
    let events = parse_ics(ICS_ALL_DAY_EVENT.as_bytes(), 0).unwrap();
    assert_eq!(events.len(), 1);
    assert_eq!(events[0].summary, "Company Holiday");
    // All-day events should have 00:00 time
    assert_eq!(events[0].start.hour, 0);
    assert_eq!(events[0].start.minute, 0);
}

#[test]
fn test_parse_utc_event() {
    // With offset 0, UTC time stays as-is (15:00 UTC -> 15:00)
    let events = parse_ics(ICS_UTC_EVENT.as_bytes(), 0).unwrap();
    assert_eq!(events[0].start.hour, 15);

    // With EST offset (-300 min), UTC time is converted (15:00 UTC -> 10:00 EST)
    let events = parse_ics(ICS_UTC_EVENT.as_bytes(), -300).unwrap();
    assert_eq!(events[0].start.hour, 10);
}

#[test]
fn test_parse_multiple_events() {
    let events = parse_ics(ICS_MULTIPLE_EVENTS.as_bytes(), 0).unwrap();
    assert_eq!(events.len(), 2);
    assert_eq!(events[0].summary, "First Event");
    assert_eq!(events[1].summary, "Second Event");
}

#[test]
fn test_parse_utc_event_crossing_midnight() {
    // 02:00 UTC at offset -0500 lands on the previous local day, 21:00.
    let ics = "BEGIN:VCALENDAR\nVERSION:2.0\nBEGIN:VEVENT\nDTSTART:20240115T020000Z\nSUMMARY:Early\nEND:VEVENT\nEND:VCALENDAR\n";
    let events = parse_ics(ics.as_bytes(), -300).unwrap();
    assert_eq!(events[0].start.date, ymd(2024, 1, 14));
    assert_eq!(events[0].start.hour, 21);
    assert_eq!(events[0].start.minute, 0);

    // 23:00 UTC at offset +0530 lands on the next local day, 04:30.
    let ics = "BEGIN:VCALENDAR\nVERSION:2.0\nBEGIN:VEVENT\nDTSTART:20240115T230000Z\nSUMMARY:Late\nEND:VEVENT\nEND:VCALENDAR\n";
    let events = parse_ics(ics.as_bytes(), 330).unwrap();
    assert_eq!(events[0].start.date, ymd(2024, 1, 16));
    assert_eq!(events[0].start.hour, 4);
    assert_eq!(events[0].start.minute, 30);
}

#[test]
fn test_parse_utc_event_crossing_month_and_year() {
    // Midnight UTC on new year's day at offset -0500: new year's eve, 19:00.
    let ics = "BEGIN:VCALENDAR\nVERSION:2.0\nBEGIN:VEVENT\nDTSTART:20240101T000000Z\nSUMMARY:Fireworks\nEND:VEVENT\nEND:VCALENDAR\n";
    let events = parse_ics(ics.as_bytes(), -300).unwrap();
    assert_eq!(events[0].start.date, ymd(2023, 12, 31));
    assert_eq!(events[0].start.hour, 19);

    // Midnight UTC on the first of March in a leap year rolls back onto
    // February the 29th.
    let ics = "BEGIN:VCALENDAR\nVERSION:2.0\nBEGIN:VEVENT\nDTSTART:20240301T000000Z\nSUMMARY:Spring\nEND:VEVENT\nEND:VCALENDAR\n";
    let events = parse_ics(ics.as_bytes(), -300).unwrap();
    assert_eq!(events[0].start.date, ymd(2024, 2, 29));
    assert_eq!(events[0].start.hour, 19);
}

#[test]
fn test_parse_ics_rejects_malformed_document() {
    assert!(parse_ics(b"this is not a calendar", 0).is_err());
}

#[test]
fn test_video_call_detection() {
    let zoom = Event {
        summary: "Call".into(),
        start: dt_default(),
        end: None,
        location: Some("https://zoom.us/j/123".into()),
        is_all_day: false,
    };
    let meet = Event {
        summary: "Call".into(),
        start: dt_default(),
        end: None,
        location: Some("https://meet.google.com/abc".into()),
        is_all_day: false,
    };
    let teams = Event {
        summary: "Call".into(),
        start: dt_default(),
        end: None,
        location: Some("https://teams.microsoft.com/l/meetup".into()),
        is_all_day: false,
    };
    let office = Event {
        summary: "Meeting".into(),
        start: dt_default(),
        end: None,
        location: Some("Conference Room A".into()),
        is_all_day: false,
    };
    let none = Event {
        summary: "Meeting".into(),
        start: dt_default(),
        end: None,
        location: None,
        is_all_day: false,
    };

    assert!(zoom.is_video_call());
    assert!(meet.is_video_call());
    assert!(teams.is_video_call());
    assert!(!office.is_video_call());
    assert!(!none.is_video_call());
}

#[test]
fn test_is_in_progress() {
    let event = Event {
        summary: "Meeting".into(),
        start: parse_datetime("2024-01-15 10:00").unwrap(),
        end: parse_datetime("2024-01-15 11:00"),
        location: None,
        is_all_day: false,
    };

    // Before start
    assert!(!event.is_in_progress(parse_datetime("2024-01-15 09:59").unwrap()));
    // At start
    assert!(event.is_in_progress(parse_datetime("2024-01-15 10:00").unwrap()));
    // During
    assert!(event.is_in_progress(parse_datetime("2024-01-15 10:30").unwrap()));
    // At end (no longer in progress)
    assert!(!event.is_in_progress(parse_datetime("2024-01-15 11:00").unwrap()));
    // After end
    assert!(!event.is_in_progress(parse_datetime("2024-01-15 11:01").unwrap()));

    // Event without end time is never "in progress"
    let no_end = Event {
        summary: "No End".into(),
        start: parse_datetime("2024-01-15 10:00").unwrap(),
        end: None,
        location: None,
        is_all_day: false,
    };
    assert!(!no_end.is_in_progress(parse_datetime("2024-01-15 10:30").unwrap()));

    // Event with non-zero seconds in start time - should NOT show as in-progress before it starts
    let event_with_secs = Event {
        summary: "Meeting".into(),
        start: DateTime { date: ymd(2024, 1, 15), hour: 10, minute: 0, second: 30 },
        end: Some(DateTime { date: ymd(2024, 1, 15), hour: 11, minute: 0, second: 0 }),
        location: None,
        is_all_day: false,
    };
    // At 10:00:15, event hasn't started yet (starts at 10:00:30)
    let now_before = DateTime { date: ymd(2024, 1, 15), hour: 10, minute: 0, second: 15 };
    assert!(!event_with_secs.is_in_progress(now_before));
}

#[test]
fn test_is_active_on() {
    // Multi-day all-day event: Jan 15-18 (3 days)
    let multi_day = Event {
        summary: "Conference".into(),
        start: parse_datetime("2024-01-15 00:00").unwrap(),
        end: parse_datetime("2024-01-18 00:00"),
        location: None,
        is_all_day: true,
    };
    assert!(!multi_day.is_active_on(ymd(2024, 1, 14)));
    assert!(multi_day.is_active_on(ymd(2024, 1, 15)));
    assert!(multi_day.is_active_on(ymd(2024, 1, 16)));
    assert!(multi_day.is_active_on(ymd(2024, 1, 17)));
    assert!(!multi_day.is_active_on(ymd(2024, 1, 18))); // end is exclusive

    // Single-day all-day event
    let single_day = Event {
        summary: "Holiday".into(),
        start: parse_datetime("2024-01-15 00:00").unwrap(),
        end: parse_datetime("2024-01-16 00:00"),
        location: None,
        is_all_day: true,
    };
    assert!(!single_day.is_active_on(ymd(2024, 1, 14)));
    assert!(single_day.is_active_on(ymd(2024, 1, 15)));
    assert!(!single_day.is_active_on(ymd(2024, 1, 16)));

    // Timed event - only active on start date
    let timed = Event {
        summary: "Meeting".into(),
        start: parse_datetime("2024-01-15 10:00").unwrap(),
        end: parse_datetime("2024-01-15 11:00"),
        location: None,
        is_all_day: false,
    };
    assert!(!timed.is_active_on(ymd(2024, 1, 14)));
    assert!(timed.is_active_on(ymd(2024, 1, 15)));
    assert!(!timed.is_active_on(ymd(2024, 1, 16)));

    // Timed event spanning midnight (11pm - 1am) - should be active on both days
    let overnight = Event {
        summary: "Overnight".into(),
        start: parse_datetime("2024-01-15 23:00").unwrap(),
        end: parse_datetime("2024-01-16 01:00"),
        location: None,
        is_all_day: false,
    };
    assert!(!overnight.is_active_on(ymd(2024, 1, 14)));
    assert!(overnight.is_active_on(ymd(2024, 1, 15)));
    assert!(overnight.is_active_on(ymd(2024, 1, 16))); // spans into this day
    assert!(!overnight.is_active_on(ymd(2024, 1, 17)));
}

#[test]
fn test_filter_future_keeps_in_progress() {
    let now = parse_datetime("2024-01-15 10:30").unwrap();

    let events = vec![
        // In progress: started 10:00, ends 11:00
        Event {
            summary: "In Progress".into(),
            start: parse_datetime("2024-01-15 10:00").unwrap(),
            end: parse_datetime("2024-01-15 11:00"),
            location: None,
            is_all_day: false,
        },
        // Fully past: started 08:00, ended 09:00
        Event {
            summary: "Already Ended".into(),
            start: parse_datetime("2024-01-15 08:00").unwrap(),
            end: parse_datetime("2024-01-15 09:00"),
            location: None,
            is_all_day: false,
        },
        // Future: starts 14:00
        Event {
            summary: "Future".into(),
            start: parse_datetime("2024-01-15 14:00").unwrap(),
            end: parse_datetime("2024-01-15 15:00"),
            location: None,
            is_all_day: false,
        },
        // Past with no end time: started 08:00
        Event {
            summary: "Past No End".into(),
            start: parse_datetime("2024-01-15 08:00").unwrap(),
            end: None,
            location: None,
            is_all_day: false,
        },
    ];

    let filtered = filter_future(events, Some(now), 10);
    let summaries: Vec<&str> = filtered.iter().map(|e| e.summary.as_str()).collect();

    assert_eq!(summaries, vec!["In Progress", "Future"]);
}

#[test]
fn test_filter_future_without_now_only_sorts() {
    let events = vec![
        Event {
            summary: "B".into(),
            start: parse_datetime("2024-01-15 14:00").unwrap(),
            end: None,
            location: None,
            is_all_day: false,
        },
        Event {
            summary: "A".into(),
            start: parse_datetime("2024-01-15 08:00").unwrap(),
            end: None,
            location: None,
            is_all_day: false,
        },
    ];
    let filtered = filter_future(events, None, 10);
    let summaries: Vec<&str> = filtered.iter().map(|e| e.summary.as_str()).collect();
    assert_eq!(summaries, vec!["A", "B"]);
}

#[test]
fn test_filter_future_truncates_and_is_stable() {
    let mk = |name: &str, start: &str| Event {
        summary: name.into(),
        start: parse_datetime(start).unwrap(),
        end: None,
        location: None,
        is_all_day: false,
    };
    let events = vec![
        mk("first-at-nine", "2024-01-15 09:00"),
        mk("second-at-nine", "2024-01-15 09:00"),
        mk("at-eight", "2024-01-15 08:00"),
    ];
    // Stable: the two 09:00 events keep their original relative order.
    let sorted = filter_future(events, None, 2);
    let summaries: Vec<&str> = sorted.iter().map(|e| e.summary.as_str()).collect();
    assert_eq!(summaries, vec!["at-eight", "first-at-nine"]);
}
