use orjson::json::de::Deserializer;
use orjson::json::error::ErrorCode;
use orjson::json::number::ParserNumber;
use orjson::json::typed::{TypedError, Unexpected};

fn invalid(e: TypedError) -> (Unexpected, usize, usize) {
    match e {
        TypedError::InvalidType { unexpected, line, column } => (unexpected, line, column),
        TypedError::Syntax(e) => panic!("syntax error {:?}", e),
    }
}

fn syntax(e: TypedError) -> (ErrorCode, usize, usize) {
    match e {
        TypedError::Syntax(e) => (e.code, e.line, e.column),
        TypedError::InvalidType { .. } => panic!("not a syntax error"),
    }
}

#[test]
fn booleans() {
    let mut de = Deserializer::from_str(" true,");
    assert!(de.deserialize_bool().unwrap());
    assert_eq!(de.byte_offset(), 5);
    let mut de = Deserializer::from_str("false");
    assert!(!de.deserialize_bool().unwrap());
}

#[test]
fn other_kinds_are_reported_where_they_end() {
    let mut de = Deserializer::from_str("\"x\"");
    let (u, line, column) = invalid(de.deserialize_bool().unwrap_err());
    assert!(matches!(u, Unexpected::Str(ref s) if s == b"x"));
    assert_eq!((line, column), (1, 3));

    let mut de = Deserializer::from_str("[1]");
    let (u, line, column) = invalid(de.deserialize_bool().unwrap_err());
    assert!(matches!(u, Unexpected::Sequence));
    assert_eq!((line, column), (1, 0));
    assert_eq!(de.byte_offset(), 0);

    let mut de = Deserializer::from_str(" 12 ");
    let (u, _, column) = invalid(de.deserialize_bool().unwrap_err());
    assert!(matches!(u, Unexpected::Unsigned(12)));
    assert_eq!(column, 3);

    let mut de = Deserializer::from_str("-1.5");
    let (u, _, _) = invalid(de.deserialize_bool().unwrap_err());
    assert!(matches!(u, Unexpected::Float(p) if !p.positive && p.significand == 15 && p.exponent == -1));

    let mut de = Deserializer::from_str("true");
    let (u, _, _) = invalid(de.deserialize_unit().unwrap_err());
    assert!(matches!(u, Unexpected::Bool(true)));

    let mut de = Deserializer::from_str("{}");
    let (u, _, _) = invalid(de.deserialize_str().unwrap_err());
    assert!(matches!(u, Unexpected::Mapping));

    let mut de = Deserializer::from_str("null");
    let (u, _, _) = invalid(de.deserialize_prim_number().unwrap_err());
    assert!(matches!(u, Unexpected::Unit));
}

#[test]
fn syntax_errors_while_reporting() {
    let mut de = Deserializer::from_str("nul");
    assert_eq!(syntax(de.deserialize_bool().unwrap_err()), (ErrorCode::EofWhileParsingValue, 1, 3));
    let mut de = Deserializer::from_str("");
    assert_eq!(syntax(de.deserialize_bool().unwrap_err()), (ErrorCode::EofWhileParsingValue, 1, 0));
    let mut de = Deserializer::from_str("x");
    assert_eq!(syntax(de.deserialize_str().unwrap_err()), (ErrorCode::ExpectedSomeValue, 1, 1));
}

#[test]
fn scalars_of_the_expected_kind() {
    let mut de = Deserializer::from_str("null");
    de.deserialize_unit().unwrap();
    let mut de = Deserializer::from_str(r#""a\nb""#);
    assert_eq!(de.deserialize_str().unwrap(), b"a\nb");
    let mut de = Deserializer::from_str("-7");
    assert_eq!(de.deserialize_prim_number().unwrap(), ParserNumber::I64(-7));
}

#[test]
fn options() {
    let mut de = Deserializer::from_str("null");
    assert!(!de.deserialize_option().unwrap());
    assert_eq!(de.byte_offset(), 4);
    let mut de = Deserializer::from_str(" 1");
    assert!(de.deserialize_option().unwrap());
    assert_eq!(de.byte_offset(), 1);
    let mut de = Deserializer::from_str("nulx");
    assert_eq!(de.deserialize_option().unwrap_err().code, ErrorCode::ExpectedSomeIdent);
}

#[test]
fn sequences_element_by_element() {
    let mut de = Deserializer::from_str("[1, 2] ");
    de.deserialize_seq().unwrap();
    assert!(de.seq_next_element(true).unwrap());
    assert_eq!(de.deserialize_prim_number().unwrap(), ParserNumber::U64(1));
    assert!(de.seq_next_element(false).unwrap());
    assert_eq!(de.deserialize_prim_number().unwrap(), ParserNumber::U64(2));
    assert!(!de.seq_next_element(false).unwrap());
    de.deserialize_seq_end().unwrap();
    assert_eq!(de.byte_offset(), 6);

    let mut de = Deserializer::from_str("[1,]");
    de.deserialize_seq().unwrap();
    assert!(de.seq_next_element(true).unwrap());
    de.deserialize_prim_number().unwrap();
    assert_eq!(de.seq_next_element(false).unwrap_err().code, ErrorCode::TrailingComma);
}

#[test]
fn maps_member_by_member() {
    let mut de = Deserializer::from_str(r#"{"a": true, "b": null}"#);
    de.deserialize_map().unwrap();
    assert_eq!(de.map_next_key(true).unwrap().unwrap(), b"a");
    de.parse_object_colon().unwrap();
    assert!(de.deserialize_bool().unwrap());
    assert_eq!(de.map_next_key(false).unwrap().unwrap(), b"b");
    de.parse_object_colon().unwrap();
    de.deserialize_unit().unwrap();
    assert!(de.map_next_key(false).unwrap().is_none());
    de.deserialize_map_end().unwrap();

    let mut de = Deserializer::from_str("{1: 2}");
    de.deserialize_map().unwrap();
    assert_eq!(de.map_next_key(true).unwrap_err().code, ErrorCode::KeyMustBeAString);
}

#[test]
fn structs_and_enums() {
    let mut de = Deserializer::from_str("[1]");
    assert!(de.deserialize_struct().unwrap());
    let mut de = Deserializer::from_str("{}");
    assert!(!de.deserialize_struct().unwrap());
    let mut de = Deserializer::from_str("1");
    let (u, _, _) = invalid(de.deserialize_struct().unwrap_err());
    assert!(matches!(u, Unexpected::Unsigned(1)));

    let mut de = Deserializer::from_str(r#"{"V": 1}"#);
    assert!(de.deserialize_enum().unwrap());
    assert_eq!(de.deserialize_str().unwrap(), b"V");
    de.parse_object_colon().unwrap();
    de.deserialize_prim_number().unwrap();
    de.deserialize_enum_end().unwrap();
    assert_eq!(de.byte_offset(), 8);

    let mut de = Deserializer::from_str(r#""Unit""#);
    assert!(!de.deserialize_enum().unwrap());
    assert_eq!(de.byte_offset(), 0);
    let mut de = Deserializer::from_str("1");
    assert_eq!(de.deserialize_enum().unwrap_err().code, ErrorCode::ExpectedSomeValue);
    let mut de = Deserializer::from_str(r#"{"V": 1 2"#);
    de.deserialize_enum().unwrap();
    de.deserialize_str().unwrap();
    de.parse_object_colon().unwrap();
    de.deserialize_prim_number().unwrap();
    let e = de.deserialize_enum_end().unwrap_err();
    assert_eq!((e.code, e.column), (ErrorCode::ExpectedSomeValue, 8));
}
