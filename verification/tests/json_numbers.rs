use orjson::json::de::{from_str, Deserializer};
use orjson::json::error::ErrorCode;
use orjson::json::number::{multiply_as_u128, ParserNumber};
use orjson::json::value::Event;

fn single_number(text: &str) -> ParserNumber {
    let events = from_str(text).unwrap();
    assert_eq!(events.len(), 1);
    match &events[0] {
        Event::Number(n) => *n,
        _ => panic!("not a number"),
    }
}

#[test]
fn integers_in_range() {
    assert_eq!(single_number("0"), ParserNumber::U64(0));
    assert_eq!(single_number("18446744073709551615"), ParserNumber::U64(u64::MAX));
    assert_eq!(single_number("-9223372036854775808"), ParserNumber::I64(i64::MIN));
    assert_eq!(single_number("-17"), ParserNumber::I64(-17));
}

#[test]
fn negative_zero_is_an_integer() {
    assert_eq!(single_number("-0"), ParserNumber::I64(0));
}

#[test]
fn integers_out_of_range_become_floats() {
    assert!(matches!(single_number("18446744073709551616"), ParserNumber::F64(_)));
    assert!(matches!(single_number("-9223372036854775809"), ParserNumber::F64(_)));
}

#[test]
fn float_parts() {
    match single_number("1e400") {
        ParserNumber::F64(p) => {
            assert!(p.positive);
            assert_eq!(p.significand, 1);
            assert_eq!(p.exponent, 400);
            assert_eq!((p.start, p.end), (0, 5));
        }
        _ => panic!("expected a float"),
    }
    match single_number("-2.50") {
        ParserNumber::F64(p) => {
            assert!(!p.positive);
            assert_eq!(p.significand, 250);
            assert_eq!(p.exponent, -2);
        }
        _ => panic!("expected a float"),
    }
}

#[test]
fn multiply_wide() {
    assert_eq!(multiply_as_u128(u64::MAX, 2), (u64::MAX - 1, 1));
    assert_eq!(multiply_as_u128(3, 5), (15, 0));
    assert_eq!(multiply_as_u128(1 << 32, 1 << 32), (0, 1));
}

#[test]
fn number_text_keeps_digits() {
    let mut de = Deserializer::from_str("12.50E+3,");
    assert_eq!(de.parse_any_number_text(true).unwrap(), "12.50e3");
    assert_eq!(de.byte_offset(), 8);
}

#[test]
fn negative_number_text() {
    let mut de = Deserializer::from_str("0.25e-2]");
    assert_eq!(de.parse_any_number_text(false).unwrap(), "-0.25e-2");
    assert_eq!(de.byte_offset(), 7);
}

#[test]
fn number_text_errors() {
    let mut de = Deserializer::from_str("01");
    let e = de.parse_any_number_text(true).unwrap_err();
    assert_eq!(e.code, ErrorCode::InvalidNumber);
    assert_eq!((e.line, e.column), (1, 2));

    let mut de = Deserializer::from_str("1.");
    assert_eq!(de.parse_any_number_text(true).unwrap_err().code, ErrorCode::EofWhileParsingValue);

    let mut de = Deserializer::from_str("1.x");
    assert_eq!(de.parse_any_number_text(true).unwrap_err().code, ErrorCode::InvalidNumber);

    let mut de = Deserializer::from_str("1e+");
    assert_eq!(de.parse_any_number_text(true).unwrap_err().code, ErrorCode::EofWhileParsingValue);

    let mut de = Deserializer::from_str("1e+x");
    assert_eq!(de.parse_any_number_text(true).unwrap_err().code, ErrorCode::InvalidNumber);

    let mut de = Deserializer::from_str("");
    assert_eq!(de.parse_any_number_text(true).unwrap_err().code, ErrorCode::EofWhileParsingValue);
}

#[test]
fn signed_numbers() {
    let mut de = Deserializer::from_str("-42");
    assert_eq!(de.parse_any_signed_number().unwrap(), ParserNumber::I64(-42));
    let mut de = Deserializer::from_str("-42 ");
    let e = de.parse_any_signed_number().unwrap_err();
    assert_eq!((e.code, e.line, e.column), (ErrorCode::InvalidNumber, 1, 4));
    let mut de = Deserializer::from_str("x");
    assert_eq!(de.parse_any_signed_number().unwrap_err().code, ErrorCode::InvalidNumber);
}
