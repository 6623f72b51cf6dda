use jired::error::Error;
use jired::timefmt::current_reference_date;
use jired::timefmt::format_instant;
use jired::timefmt::iso_date_string;
use jired::timefmt::parse_date;
use jired::timefmt::parse_hhmm;
use jired::timefmt::Date;
use jired::tracker::Tracker;

fn d(y: u32, m: u32, day: u32) -> Date {
    Date::new(y, m, day).unwrap()
}

#[test]
fn half_hour_offset_converts_to_utc() {
    let r = format_instant("0930", &d(2024, 1, 1), 330).unwrap();
    assert_eq!(r, "2024-01-01T04:00:00+00:00");
}

#[test]
fn conversion_can_cross_midnight_backwards() {
    let r = format_instant("0100", &d(2024, 1, 1), 330).unwrap();
    assert_eq!(r, "2023-12-31T19:30:00+00:00");
}

#[test]
fn negative_offset_crosses_midnight_forwards() {
    let r = format_instant("2300", &d(2024, 12, 31), -120).unwrap();
    assert_eq!(r, "2025-01-01T01:00:00+00:00");
}

#[test]
fn zero_offset_keeps_the_local_time() {
    let r = format_instant("0000", &d(2024, 2, 29), 0).unwrap();
    assert_eq!(r, "2024-02-29T00:00:00+00:00");
}

#[test]
fn malformed_times_are_parse_errors() {
    for bad in ["930", "09300", "09:3", "2400", "0960", "ab00", ""] {
        let err = format_instant(bad, &d(2024, 1, 1), 0).unwrap_err();
        assert!(matches!(err, Error::ParseError(_)), "{bad}");
    }
}

#[test]
fn instants_before_the_calendar_are_rejected() {
    let err = format_instant("0000", &d(0, 1, 1), 60).unwrap_err();
    assert!(matches!(err, Error::ValidationError(_)));
}

#[test]
fn parse_hhmm_accepts_the_clock_range() {
    assert_eq!(parse_hhmm("0000").unwrap(), (0, 0));
    assert_eq!(parse_hhmm("2359").unwrap(), (23, 59));
    assert_eq!(parse_hhmm("0930").unwrap(), (9, 30));
}

#[test]
fn parse_hhmm_rejects_out_of_range() {
    assert!(parse_hhmm("2400").is_err());
    assert!(parse_hhmm("1260").is_err());
    assert!(parse_hhmm("12a0").is_err());
}

#[test]
fn date_validation_knows_leap_years() {
    assert!(Date::new(2024, 2, 29).is_ok());
    assert!(Date::new(2023, 2, 29).is_err());
    assert!(Date::new(2000, 2, 29).is_ok());
    assert!(Date::new(1900, 2, 29).is_err());
    assert!(Date::new(2024, 13, 1).is_err());
    assert!(Date::new(2024, 4, 31).is_err());
    assert!(Date::new(2024, 0, 1).is_err());
}

#[test]
fn parse_date_reads_iso_dates() {
    let p = parse_date("2024-01-31").unwrap();
    assert_eq!((p.year, p.month, p.day), (2024, 1, 31));
    assert!(parse_date("2024-1-31").is_err());
    assert!(parse_date("2024-02-30").is_err());
    assert!(parse_date("20240130").is_err());
    assert!(parse_date("2024/01/30").is_err());
}

#[test]
fn iso_date_renders_zero_padded() {
    assert_eq!(iso_date_string(&d(31, 1, 2)), "0031-01-02");
    assert_eq!(iso_date_string(&d(2024, 12, 31)), "2024-12-31");
}

#[test]
fn tracker_formats_with_its_own_config() {
    let tracker = Tracker::with_contents(
        "/tmp/jired/2024-01-01.jj".to_string(),
        d(2024, 1, 1),
        330,
        String::new(),
        String::new(),
    );
    assert_eq!(tracker.format_24_hrs("0930").unwrap(), "2024-01-01T04:00:00+00:00");
}

#[test]
fn conversion_agrees_with_the_calendar_crate() {
    let cases: &[(u32, u32, u32, &str, i64)] = &[
        (2024, 1, 1, "0930", 330),
        (2024, 3, 1, "0000", -90),
        (2023, 12, 31, "2359", 345),
        (2000, 2, 29, "1200", 0),
        (1999, 1, 1, "0001", 720),
        (1970, 1, 1, "0000", 0),
        (2100, 2, 28, "2300", -840),
    ];
    for &(y, m, day, hhmm, off) in cases {
        let date = Date::new(y, m, day).unwrap();
        let ours = format_instant(hhmm, &date, off).unwrap();
        let (h, mi) = parse_hhmm(hhmm).unwrap();
        let naive = chrono::NaiveDate::from_ymd_opt(y as i32, m, day)
            .unwrap()
            .and_hms_opt(h, mi, 0)
            .unwrap();
        let adjusted = naive - chrono::Duration::seconds(off * 60);
        let expected =
            chrono::DateTime::<chrono::Utc>::from_naive_utc_and_offset(adjusted, chrono::Utc)
                .to_rfc3339();
        assert_eq!(ours, expected, "{y}-{m}-{day} {hhmm} {off}");
    }
}

#[test]
fn the_reference_date_defaults_to_today() {
    let today = current_reference_date().unwrap();
    assert!(1 <= today.month && today.month <= 12);
    assert!(1 <= today.day && today.day <= 31);
}
