use pessoas::date::{days_in_month, format_date, is_leap_year, parse_date, Date};

#[test]
fn format_pads_components() {
    let d = Date::new(1987, 1, 5).unwrap();
    assert_eq!(format_date(&d), b"1987-01-05".to_vec());
}

#[test]
fn format_reference_date() {
    let d = Date::new(2000, 7, 24).unwrap();
    assert_eq!(format_date(&d), b"2000-07-24".to_vec());
}

#[test]
fn parse_reference_date() {
    let d = parse_date(b"2000-07-24").unwrap();
    assert_eq!(d.year, 2000);
    assert_eq!(d.month, 7);
    assert_eq!(d.day, 24);
}

#[test]
fn parse_then_format_round_trips() {
    for s in [
        b"2000-07-24".to_vec(),
        b"0001-01-01".to_vec(),
        b"9999-12-31".to_vec(),
        b"2024-02-29".to_vec(),
    ] {
        let d = parse_date(&s).unwrap();
        assert_eq!(format_date(&d), s);
    }
}

#[test]
fn parse_rejects_bad_shape() {
    assert!(parse_date(b"").is_none());
    assert!(parse_date(b"20000724").is_none());
    assert!(parse_date(b"2000-07-24T").is_none());
    assert!(parse_date(b"2000/07/24").is_none());
    assert!(parse_date(b"2000-7-24").is_none());
    assert!(parse_date(b"200O-07-24").is_none());
}

#[test]
fn parse_rejects_out_of_range_components() {
    assert!(parse_date(b"2000-13-01").is_none());
    assert!(parse_date(b"2000-00-10").is_none());
    assert!(parse_date(b"2000-01-32").is_none());
    assert!(parse_date(b"2000-04-31").is_none());
    assert!(parse_date(b"2000-01-00").is_none());
}

#[test]
fn parse_knows_leap_years() {
    assert!(parse_date(b"2000-02-29").is_some());
    assert!(parse_date(b"2400-02-29").is_some());
    assert!(parse_date(b"1900-02-29").is_none());
    assert!(parse_date(b"2001-02-29").is_none());
    assert!(parse_date(b"2004-02-29").is_some());
}

#[test]
fn leap_year_rule() {
    assert!(is_leap_year(2000));
    assert!(is_leap_year(2024));
    assert!(!is_leap_year(1900));
    assert!(!is_leap_year(2023));
}

#[test]
fn month_lengths() {
    assert_eq!(days_in_month(2023, 1), 31);
    assert_eq!(days_in_month(2023, 2), 28);
    assert_eq!(days_in_month(2024, 2), 29);
    assert_eq!(days_in_month(2023, 4), 30);
    assert_eq!(days_in_month(2023, 12), 31);
}

#[test]
fn new_rejects_invalid_dates() {
    assert!(Date::new(2000, 7, 24).is_some());
    assert!(Date::new(10000, 1, 1).is_none());
    assert!(Date::new(2000, 13, 1).is_none());
    assert!(Date::new(2000, 0, 1).is_none());
    assert!(Date::new(1900, 2, 29).is_none());
}
