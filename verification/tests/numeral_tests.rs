use bibterm::numeral::{format_i32, parse_i32};

fn p(s: &str) -> Option<i32> {
    parse_i32(&s.as_bytes().to_vec())
}

#[test]
fn parses_plain_digits() {
    assert_eq!(p("0"), Some(0));
    assert_eq!(p("3"), Some(3));
    assert_eq!(p("16"), Some(16));
    assert_eq!(p("007"), Some(7));
}

#[test]
fn parses_signed() {
    assert_eq!(p("+7"), Some(7));
    assert_eq!(p("-12"), Some(-12));
    assert_eq!(p("-0"), Some(0));
}

#[test]
fn parses_extremes() {
    assert_eq!(p("2147483647"), Some(i32::MAX));
    assert_eq!(p("-2147483648"), Some(i32::MIN));
    assert_eq!(p("2147483648"), None);
    assert_eq!(p("-2147483649"), None);
    assert_eq!(p("99999999999999999999"), None);
}

#[test]
fn rejects_malformed() {
    assert_eq!(p(""), None);
    assert_eq!(p("+"), None);
    assert_eq!(p("-"), None);
    assert_eq!(p("abc"), None);
    assert_eq!(p("12a"), None);
    assert_eq!(p("1 2"), None);
    assert_eq!(p("--3"), None);
}

#[test]
fn formats_decimal() {
    assert_eq!(format_i32(0), b"0".to_vec());
    assert_eq!(format_i32(7), b"7".to_vec());
    assert_eq!(format_i32(42), b"42".to_vec());
    assert_eq!(format_i32(-12), b"-12".to_vec());
    assert_eq!(format_i32(i32::MAX), b"2147483647".to_vec());
    assert_eq!(format_i32(i32::MIN), b"-2147483648".to_vec());
}

#[test]
fn format_round_trips_through_parse() {
    for n in [0, 1, -1, 9, 10, 99, 100, 12345, -54321, i32::MAX, i32::MIN] {
        assert_eq!(parse_i32(&format_i32(n)), Some(n));
    }
}
