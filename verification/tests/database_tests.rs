use shooter_compute::database::{parse_rpm, rpm_from_response, DistanceLookupError, IntParseError};
use std::num::IntErrorKind;

fn std_kind(text: &str) -> Result<i32, IntParseError> {
    match text.parse::<i32>() {
        Ok(v) => Ok(v),
        Err(e) => Err(match e.kind() {
            IntErrorKind::Empty => IntParseError::Empty,
            IntErrorKind::InvalidDigit => IntParseError::InvalidDigit,
            IntErrorKind::PosOverflow => IntParseError::PosOverflow,
            IntErrorKind::NegOverflow => IntParseError::NegOverflow,
            _ => panic!("unexpected kind"),
        }),
    }
}

#[test]
fn parses_plain_numbers() {
    assert_eq!(parse_rpm("1500"), Ok(1500));
    assert_eq!(parse_rpm("-45"), Ok(-45));
    assert_eq!(parse_rpm("+7"), Ok(7));
    assert_eq!(parse_rpm("007"), Ok(7));
}

#[test]
fn parses_the_extremes() {
    assert_eq!(parse_rpm("2147483647"), Ok(i32::MAX));
    assert_eq!(parse_rpm("-2147483648"), Ok(i32::MIN));
}

#[test]
fn each_error_kind() {
    assert_eq!(parse_rpm(""), Err(IntParseError::Empty));
    assert_eq!(parse_rpm("+"), Err(IntParseError::InvalidDigit));
    assert_eq!(parse_rpm("-"), Err(IntParseError::InvalidDigit));
    assert_eq!(parse_rpm("12a"), Err(IntParseError::InvalidDigit));
    assert_eq!(parse_rpm(" 1"), Err(IntParseError::InvalidDigit));
    assert_eq!(parse_rpm("2147483648"), Err(IntParseError::PosOverflow));
    assert_eq!(parse_rpm("-2147483649"), Err(IntParseError::NegOverflow));
    assert_eq!(parse_rpm("99999999999x"), Err(IntParseError::PosOverflow));
    assert_eq!(parse_rpm("1x99999999999"), Err(IntParseError::InvalidDigit));
}

#[test]
fn agrees_with_std_parse() {
    let samples = [
        "", "0", "-0", "+0", "+", "-", "--1", "+-1", "1.5", "\u{661}", "12 ", "4294967296",
        "-4294967296", "2147483646", "-2147483647", "000000000000000000001", "+2147483648",
        "-99999999999999999999", "abc", "9x", "x9",
    ];
    for s in samples {
        assert_eq!(parse_rpm(s), std_kind(s), "text {:?}", s);
    }
}

#[test]
fn missing_row_is_no_data() {
    assert_eq!(rpm_from_response(None), Err(DistanceLookupError::NoData));
}

#[test]
fn stored_text_is_parsed() {
    assert_eq!(rpm_from_response(Some("3200")), Ok(3200));
    assert_eq!(
        rpm_from_response(Some("fast")),
        Err(DistanceLookupError::InvalidRpm(IntParseError::InvalidDigit))
    );
}
