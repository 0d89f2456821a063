use zj_cal::ctx::Ctx;
use zj_cal::parse::{parse_datetime, parse_utc_offset};

#[test]
fn test_parse_utc_offset_round_trip() {
    assert_eq!(parse_utc_offset("+0000"), Some(0));
    assert_eq!(parse_utc_offset("-0500"), Some(-300));
    assert_eq!(parse_utc_offset("+0530"), Some(330));
    assert_eq!(parse_utc_offset("-1200"), Some(-720));
    assert_eq!(parse_utc_offset("+1345"), Some(825));
}

#[test]
fn test_parse_utc_offset_rejects_malformed() {
    // wrong length
    assert_eq!(parse_utc_offset(""), None);
    assert_eq!(parse_utc_offset("+530"), None);
    assert_eq!(parse_utc_offset("+05300"), None);
    // bad sign
    assert_eq!(parse_utc_offset("00500"), None);
    assert_eq!(parse_utc_offset("x0500"), None);
    // non-digit fields
    assert_eq!(parse_utc_offset("+05a0"), None);
    assert_eq!(parse_utc_offset("+ 500"), None);
}

#[test]
fn test_parse_datetime_accepts_the_pattern() {
    let t = parse_datetime("2024-01-15 10:30").unwrap();
    assert_eq!(t.date.year, 2024);
    assert_eq!(t.date.month, 1);
    assert_eq!(t.date.day, 15);
    assert_eq!(t.hour, 10);
    assert_eq!(t.minute, 30);
    assert_eq!(t.second, 0);
    // leap day
    assert!(parse_datetime("2024-02-29 00:00").is_some());
}

#[test]
fn test_parse_datetime_rejects_deviations() {
    // wrong separators
    assert_eq!(parse_datetime("2024/01/15 10:30"), None);
    assert_eq!(parse_datetime("2024-01-15T10:30"), None);
    // wrong length
    assert_eq!(parse_datetime("2024-01-15 10:30:00"), None);
    assert_eq!(parse_datetime("2024-1-15 10:30"), None);
    // non-numeric fields
    assert_eq!(parse_datetime("2024-01-xy 10:30"), None);
    // out-of-range calendar values
    assert_eq!(parse_datetime("2024-13-01 10:30"), None);
    assert_eq!(parse_datetime("2024-00-10 10:30"), None);
    assert_eq!(parse_datetime("2024-02-30 10:30"), None);
    assert_eq!(parse_datetime("2023-02-29 10:30"), None);
    assert_eq!(parse_datetime("2024-01-15 24:00"), None);
    assert_eq!(parse_datetime("2024-01-15 10:60"), None);
}

#[test]
fn test_ctx_round_trip() {
    let pairs = Ctx::TimeFetch.into_map();
    assert_eq!(pairs, vec![("source".to_string(), "time_fetch".to_string())]);
    assert_eq!(Ctx::from_map(&pairs), Ok(Ctx::TimeFetch));

    let pairs = Ctx::IcsFetch.into_map();
    assert_eq!(Ctx::from_map(&pairs), Ok(Ctx::IcsFetch));

    let pairs = Ctx::IcsFetchFile { path: "/tmp/cal.ics".to_string() }.into_map();
    assert_eq!(
        pairs,
        vec![
            ("path".to_string(), "/tmp/cal.ics".to_string()),
            ("source".to_string(), "ics_fetch_file".to_string()),
        ]
    );
    assert_eq!(Ctx::from_map(&pairs), Ok(Ctx::IcsFetchFile { path: "/tmp/cal.ics".to_string() }));

    let pairs = Ctx::IcsReadFile { path: "/tmp/cal.ics".to_string() }.into_map();
    assert_eq!(Ctx::from_map(&pairs), Ok(Ctx::IcsReadFile { path: "/tmp/cal.ics".to_string() }));
}

#[test]
fn test_ctx_from_map_errors() {
    // missing source key
    let empty: Vec<(String, String)> = vec![];
    assert!(Ctx::from_map(&empty).is_err());
    // unknown source value
    let unknown = vec![("source".to_string(), "bogus".to_string())];
    assert!(Ctx::from_map(&unknown).is_err());
    // missing path field
    let no_path = vec![("source".to_string(), "ics_fetch_file".to_string())];
    assert!(Ctx::from_map(&no_path).is_err());
}
