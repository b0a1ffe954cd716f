use orjson::deserialize::deserializer::{deserialize, deserialize_json};
use orjson::deserialize::error::DeserializeError;
use orjson::deserialize::input::{read_input_to_buf, PyInput};
use orjson::error::DeError;
use orjson::json::value::Event;

fn message_of(input: PyInput) -> String {
    match deserialize(input, 0) {
        Ok(_) => panic!("expected an error"),
        Err(e) => e.message,
    }
}

#[test]
fn empty_containers_and_string() {
    let v = deserialize(PyInput::Bytes(b"[]"), 0).unwrap();
    assert!(matches!(v.as_slice(), [Event::StartArray, Event::EndArray]));
    let v = deserialize(PyInput::Str(Some("{}")), 0).unwrap();
    assert!(matches!(v.as_slice(), [Event::StartObject, Event::EndObject]));
    let v = deserialize(PyInput::ByteArray(b"\"\""), 0).unwrap();
    match v.as_slice() {
        [Event::Str(s)] => assert!(s.is_empty()),
        _ => panic!("expected one empty string"),
    }
}

#[test]
fn input_errors() {
    assert_eq!(message_of(PyInput::Other), "Input must be bytes, bytearray, memoryview, or str");
    assert_eq!(message_of(PyInput::Str(None)), "str is not valid UTF-8: surrogates not allowed");
    assert_eq!(message_of(PyInput::Bytes(b"\xff")), "str is not valid UTF-8: surrogates not allowed");
    assert_eq!(message_of(PyInput::Bytes(b"")), "Input is a zero-length, empty document");
    assert_eq!(
        message_of(PyInput::MemoryView { contiguous: false, data: b"[]" }),
        "Input type memoryview must be a C contiguous buffer"
    );
    let v = deserialize(PyInput::MemoryView { contiguous: true, data: b"null" }, 0).unwrap();
    assert!(matches!(v.as_slice(), [Event::Null]));
}

#[test]
fn read_input_gives_bytes() {
    assert_eq!(read_input_to_buf(PyInput::Bytes(b"[1]")).unwrap(), b"[1]");
    assert_eq!(read_input_to_buf(PyInput::Str(Some("1"))).unwrap(), b"1");
    let e = read_input_to_buf(PyInput::ByteArray(b"")).unwrap_err();
    assert_eq!(e.message, "Input is a zero-length, empty document");
    assert_eq!(e.pos(), 1);
}

#[test]
fn reader_error_keeps_message_and_place() {
    let e = deserialize(PyInput::Bytes(b"[1,]"), 0).unwrap_err();
    assert_eq!(e.message, "trailing comma at line 1 column 4");
    assert_eq!((e.line, e.column), (1, 4));
    assert_eq!(e.data, Some("[1,]"));
    assert_eq!(e.pos(), 4);
}

#[test]
fn error_position_counts_characters() {
    let e = deserialize_json("[\"\u{e9}\",]", false).unwrap_err();
    assert_eq!((e.line, e.column), (1, 7));
    assert_eq!(e.pos(), 6);
}

#[test]
fn error_position_on_a_later_line() {
    let e = deserialize_json("[\n1,\n]", false).unwrap_err();
    assert_eq!(e.pos(), 6);
    let e = deserialize_json("{1:2}", false).unwrap_err();
    assert_eq!(e.pos(), 1);
}

#[test]
fn trailing_characters_after_document() {
    let e = deserialize(PyInput::Str(Some("[] x")), 0).unwrap_err();
    assert_eq!(e.message, "trailing characters at line 1 column 4");
    assert_eq!(e.pos(), 4);
}

#[test]
fn byte_offset_positions() {
    let e = DeserializeError::from_yyjson("bad".to_string(), 4, "a\u{e9}bc");
    assert_eq!(e.char_pos(), 3);
    let e = DeserializeError::invalid("x".to_string());
    assert_eq!(e.char_pos(), 0);
    assert_eq!(e.pos(), 1);
}

#[test]
fn de_error_shows_its_message() {
    let e = DeError {
        message: "unexpected character".to_string(),
        line: 3,
        column: 9,
        jpart: "[1,".to_string(),
    };
    assert_eq!(e.to_string(), "unexpected character");
}
