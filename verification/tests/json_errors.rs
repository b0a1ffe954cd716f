use orjson::json::de::{from_slice, from_str};
use orjson::json::error::{Error, ErrorCode};

fn message(text: &[u8]) -> String {
    from_slice(text).unwrap_err().to_string()
}

#[test]
fn empty_document() {
    assert_eq!(message(b""), "EOF while parsing a value at line 1 column 0");
    assert_eq!(message(b"   "), "EOF while parsing a value at line 1 column 3");
}

#[test]
fn unterminated_string() {
    assert_eq!(message(b"\"abc"), "EOF while parsing a string at line 1 column 4");
}

#[test]
fn missing_colon() {
    assert_eq!(message(br#"{"a" 1}"#), "expected `:` at line 1 column 6");
}

#[test]
fn missing_comma_in_list() {
    assert_eq!(message(b"[1 2]"), "expected `,` or `]` at line 1 column 4");
}

#[test]
fn missing_comma_in_object() {
    assert_eq!(message(br#"{"a":1 "b":2}"#), "expected `,` or `}` at line 1 column 8");
}

#[test]
fn key_must_be_string() {
    assert_eq!(message(b"{1:2}"), "key must be a string at line 1 column 2");
}

#[test]
fn idents() {
    assert_eq!(message(b"tru"), "EOF while parsing a value at line 1 column 3");
    assert_eq!(message(b"trux"), "expected ident at line 1 column 4");
    assert_eq!(message(b"x"), "expected value at line 1 column 1");
}

#[test]
fn trailing_comma_on_a_later_line() {
    let err = from_str("[\n1,\n]").unwrap_err();
    assert_eq!(err.code, ErrorCode::TrailingComma);
    assert_eq!((err.line(), err.column()), (3, 1));
}

#[test]
fn trailing_comma_in_object() {
    assert_eq!(message(br#"{"a":1,}"#), "trailing comma at line 1 column 8");
}

#[test]
fn control_character_in_string() {
    assert_eq!(
        message(b"\"a\nb\""),
        "control character (\\u0000-\\u001F) found while parsing a string at line 2 column 0"
    );
}

#[test]
fn escapes() {
    assert_eq!(message(br#""\q""#), "invalid escape at line 1 column 3");
    assert_eq!(message(br#""\u12"#), "EOF while parsing a string at line 1 column 5");
}

#[test]
fn error_without_line() {
    let e = Error::syntax(ErrorCode::TrailingCharacters, 0, 0);
    assert_eq!(e.to_string(), "trailing characters");
    let e = Error::syntax(ErrorCode::InvalidNumber, 12, 305);
    assert_eq!(e.to_string(), "invalid number at line 12 column 305");
    assert!(!e.is_eof());
    assert!(Error::syntax(ErrorCode::EofWhileParsingList, 1, 1).is_eof());
}

#[test]
fn escaped_string_value() {
    let events = from_str(r#""a\u00e9\n\"""#).unwrap();
    match &events[0] {
        orjson::json::value::Event::Str(s) => assert_eq!(String::from_utf8(s.clone()).unwrap(), "a\u{e9}\n\""),
        _ => panic!("expected a string"),
    }
}
