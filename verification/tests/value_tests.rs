//! The exact-decimal type and the calendar types.

use wfdb::header::{BaseDate, BaseTime, Decimal};

#[test]
fn test_decimal_parse_integer() {
    assert_eq!(Decimal::parse("360"), Some(Decimal::new(360, 0)));
    assert_eq!(Decimal::parse("+360"), Some(Decimal::new(360, 0)));
    assert_eq!(Decimal::parse("-100"), Some(Decimal::new(-100, 0)));
    assert_eq!(Decimal::parse("0"), Some(Decimal::new(0, 0)));
}

#[test]
fn test_decimal_parse_fractional() {
    assert_eq!(Decimal::parse("360.5"), Some(Decimal::new(3605, 1)));
    assert_eq!(Decimal::parse("360."), Some(Decimal::new(360, 0)));
    assert_eq!(Decimal::parse(".5"), Some(Decimal::new(5, 1)));
    assert_eq!(Decimal::parse("200.50"), Some(Decimal::new(2005, 1)));
}

#[test]
fn test_decimal_parse_exponent() {
    assert_eq!(Decimal::parse("3.6e2"), Some(Decimal::new(360, 0)));
    assert_eq!(Decimal::parse("1.0E2"), Some(Decimal::new(100, 0)));
    assert_eq!(Decimal::parse("25e-1"), Some(Decimal::new(25, 1)));
}

#[test]
fn test_decimal_parse_rejects_garbage() {
    assert_eq!(Decimal::parse(""), None);
    assert_eq!(Decimal::parse("abc"), None);
    assert_eq!(Decimal::parse("1.2.3"), None);
    assert_eq!(Decimal::parse("1e"), None);
    assert_eq!(Decimal::parse("."), None);
}

#[test]
fn test_decimal_canonical_equality() {
    // The same value written differently compares equal.
    assert_eq!(Decimal::parse("200").unwrap(), Decimal::parse("200.0").unwrap());
    assert_eq!(Decimal::parse("2e2").unwrap(), Decimal::parse("200").unwrap());
    assert_eq!(Decimal::new(2000, 1), Decimal::new(200, 0));
}

#[test]
fn test_decimal_positivity() {
    assert!(Decimal::parse("0.5").unwrap().is_positive());
    assert!(!Decimal::parse("0").unwrap().is_positive());
    assert!(!Decimal::parse("-3").unwrap().is_positive());
}

#[test]
fn test_base_time_validity() {
    assert!(BaseTime::new(23, 59, 59).is_some());
    assert!(BaseTime::new(24, 0, 0).is_none());
    assert!(BaseTime::new(12, 60, 0).is_none());
    assert!(BaseTime::new(12, 0, 60).is_none());
}

#[test]
fn test_base_date_validity() {
    assert!(BaseDate::new(2000, 2, 29).is_some());
    assert!(BaseDate::new(1900, 2, 29).is_none());
    assert!(BaseDate::new(2024, 2, 29).is_some());
    assert!(BaseDate::new(2023, 2, 29).is_none());
    assert!(BaseDate::new(2023, 4, 31).is_none());
    assert!(BaseDate::new(2023, 1, 31).is_some());
    assert!(BaseDate::new(2023, 13, 1).is_none());
    assert!(BaseDate::new(2023, 0, 1).is_none());
    assert!(BaseDate::new(2023, 1, 0).is_none());
}

#[test]
fn test_format_code_round_trip() {
    for code in [0u16, 8, 16, 24, 32, 61, 80, 160, 212, 310, 311, 508, 516, 524] {
        let fmt = wfdb::SignalFormat::from_code(code).unwrap();
        assert_eq!(fmt.code(), code);
    }
    assert!(wfdb::SignalFormat::from_code(999).is_err());
}
