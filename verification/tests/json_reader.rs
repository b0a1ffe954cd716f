use orjson::json::de::{from_slice, from_str, Deserializer, StreamDeserializer};
use orjson::json::error::ErrorCode;
use orjson::json::number::ParserNumber;
use orjson::json::read::SliceRead;
use orjson::json::value::Event;

fn kinds(events: &[Event]) -> Vec<String> {
    events
        .iter()
        .map(|e| match e {
            Event::Null => "null".to_string(),
            Event::Bool(b) => format!("{}", b),
            Event::Number(ParserNumber::U64(n)) => format!("u{}", n),
            Event::Number(ParserNumber::I64(n)) => format!("i{}", n),
            Event::Number(ParserNumber::F64(f)) => format!("f{}:{}e{}", f.positive, f.significand, f.exponent),
            Event::Str(s) => format!("s{}", String::from_utf8(s.clone()).unwrap()),
            Event::StartArray => "[".to_string(),
            Event::EndArray => "]".to_string(),
            Event::StartObject => "{".to_string(),
            Event::Key(k) => format!("k{}", String::from_utf8(k.clone()).unwrap()),
            Event::EndObject => "}".to_string(),
        })
        .collect()
}

#[test]
fn reads_nested_document() {
    let events = from_str(r#" {"a": [1, -2, 3.5e1, true, null], "b": "x\ny"} "#).unwrap();
    assert_eq!(
        kinds(&events),
        vec!["{", "ka", "[", "u1", "i-2", "ftrue:35e0", "true", "null", "]", "kb", "sx\ny", "}"]
    );
}

#[test]
fn stream_byte_offsets() {
    let data = b"[0] [1] [";
    let mut stream = StreamDeserializer::new(SliceRead::new(data));
    assert_eq!(0, stream.byte_offset());
    assert!(stream.next().unwrap().is_ok());
    assert_eq!(3, stream.byte_offset());
    assert!(stream.next().unwrap().is_ok());
    assert_eq!(7, stream.byte_offset());
    let err = stream.next().unwrap().unwrap_err();
    assert!(err.is_eof());
    assert_eq!(8, stream.byte_offset());
}

#[test]
fn trailing_comma_is_reported() {
    let err = from_slice(b"[1,]").unwrap_err();
    assert_eq!(err.code, ErrorCode::TrailingComma);
    assert_eq!(err.to_string(), "trailing comma at line 1 column 4");
}

#[test]
fn trailing_characters_after_value() {
    let err = from_slice(b"1 2").unwrap_err();
    assert_eq!(err.code, ErrorCode::TrailingCharacters);
    assert_eq!((err.line, err.column), (1, 3));
}

#[test]
fn ignore_value_skips_nested() {
    let data = br#"[{"a": [1, 2, {"b": null}]}, "s"] tail"#;
    let mut de = Deserializer::from_slice(data);
    de.ignore_value().unwrap();
    assert_eq!(de.byte_offset(), 33);
}

#[test]
fn recursion_limit() {
    let deep = "[".repeat(200);
    let err = from_str(&deep).unwrap_err();
    assert_eq!(err.code, ErrorCode::RecursionLimitExceeded);
}

#[test]
fn deserializer_into_stream() {
    let mut stream = Deserializer::from_str("1 [2] ").into_iter();
    assert_eq!(kinds(&stream.next().unwrap().unwrap()), vec!["u1"]);
    assert_eq!(stream.byte_offset(), 1);
    assert_eq!(kinds(&stream.next().unwrap().unwrap()), vec!["[", "u2", "]"]);
    assert!(stream.next().is_none());
    assert_eq!(stream.byte_offset(), 6);
}

#[test]
fn stream_constructors_agree() {
    let data = b" 1 [2] \"x\"  ";
    let mut a = StreamDeserializer::new(SliceRead::new(data));
    let mut b = Deserializer::from_slice(data).into_iter();
    assert_eq!(a.byte_offset(), b.byte_offset());
    loop {
        let x = a.next();
        let y = b.next();
        assert_eq!(a.byte_offset(), b.byte_offset());
        match (x, y) {
            (None, None) => break,
            (Some(Ok(u)), Some(Ok(v))) => assert_eq!(kinds(&u), kinds(&v)),
            _ => panic!("the two streams differ"),
        }
    }
}

#[test]
fn whitespace_is_skipped_once() {
    let mut stream = Deserializer::from_str(" \t\n\r 7 \n").into_iter();
    assert_eq!(kinds(&stream.next().unwrap().unwrap()), vec!["u7"]);
    assert_eq!(stream.byte_offset(), 6);
    assert!(stream.next().is_none());
    assert_eq!(stream.byte_offset(), 8);
    assert!(stream.next().is_none());
    assert_eq!(stream.byte_offset(), 8);
}

#[test]
fn parse_whitespace_stands_still_the_second_time() {
    let mut de = Deserializer::from_str(" \t\n\r x ");
    assert_eq!(de.parse_whitespace(), Some(b'x'));
    assert_eq!(de.byte_offset(), 5);
    assert_eq!(de.parse_whitespace(), Some(b'x'));
    assert_eq!(de.byte_offset(), 5);
    let mut end = Deserializer::from_str("   ");
    assert_eq!(end.parse_whitespace(), None);
    assert_eq!(end.byte_offset(), 3);
}

#[test]
fn stream_offset_on_incomplete_value() {
    let data = b"[1]  [2";
    let mut stream = Deserializer::from_slice(data).into_iter();
    assert!(stream.next().unwrap().is_ok());
    let before = stream.byte_offset();
    let err = stream.next().unwrap().unwrap_err();
    assert!(err.is_eof());
    assert!(before <= stream.byte_offset() && stream.byte_offset() <= data.len());
    assert_eq!(&data[stream.byte_offset()..], b"[2");
}
