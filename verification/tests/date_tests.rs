use soil_moisture::date::{format_date, parse_date, Date};

#[test]
fn parse_valid_date() {
    let d = parse_date(b"2024-07-29").unwrap();
    assert_eq!(d, Date { year: 2024, month: 7, day: 29 });
}

#[test]
fn parse_leap_day() {
    assert_eq!(parse_date(b"2024-02-29"), Some(Date { year: 2024, month: 2, day: 29 }));
    assert_eq!(parse_date(b"2023-02-29"), None);
    assert_eq!(parse_date(b"1900-02-29"), None);
    assert_eq!(parse_date(b"2000-02-29"), Some(Date { year: 2000, month: 2, day: 29 }));
}

#[test]
fn parse_rejects_bad_shape() {
    assert_eq!(parse_date(b""), None);
    assert_eq!(parse_date(b"2024-7-29"), None);
    assert_eq!(parse_date(b"2024/07/29"), None);
    assert_eq!(parse_date(b"2024-07-290"), None);
    assert_eq!(parse_date(b"y024-07-29"), None);
    assert_eq!(parse_date(b"2024-13-01"), None);
    assert_eq!(parse_date(b"2024-00-10"), None);
    assert_eq!(parse_date(b"2024-04-31"), None);
    assert_eq!(parse_date(b"2024-07-00"), None);
    assert_eq!(parse_date(b"0000-01-01"), None);
}

#[test]
fn format_then_parse_round_trip() {
    let d = Date { year: 2024, month: 7, day: 29 };
    let bytes = format_date(&d);
    assert_eq!(bytes, b"2024-07-29".to_vec());
    assert_eq!(parse_date(&bytes), Some(d));
    let d2 = Date { year: 1, month: 1, day: 1 };
    let b2 = format_date(&d2);
    assert_eq!(b2, b"0001-01-01".to_vec());
    assert_eq!(parse_date(&b2), Some(d2));
}

#[test]
fn date_order_is_chronological() {
    let a = Date { year: 2024, month: 7, day: 29 };
    let b = Date { year: 2024, month: 8, day: 1 };
    let c = Date { year: 2025, month: 1, day: 1 };
    assert!(a.le(&a));
    assert!(a.le(&b));
    assert!(!b.le(&a));
    assert!(b.le(&c));
    assert!(!c.le(&a));
}

#[test]
fn new_checks_validity() {
    assert!(Date::new(2024, 7, 29).is_some());
    assert!(Date::new(2024, 2, 30).is_none());
    assert!(Date::new(0, 1, 1).is_none());
    assert!(Date::new(10000, 1, 1).is_none());
    assert!(Date::new(2024, 12, 31).is_some());
}
