use orjson::deserialize::deserializer::{deserialize, deserialize_json, Deserializer};
use orjson::deserialize::input::PyInput;
use orjson::deserialize::number::{number_value, NumberValue};
use orjson::encode::{IntText, ObType, SerializePyObject};
use orjson::json::number::ParserNumber;
use orjson::json::value::Event;
use orjson::opt::{BIG_INTEGER, NAN_AS_NULL};

fn one_number(text: &str) -> ParserNumber {
    let events = deserialize(PyInput::Str(Some(text)), 0).unwrap();
    match events.as_slice() {
        [Event::Number(n)] => *n,
        _ => panic!("expected one number"),
    }
}

#[test]
fn big_integer_reads_exactly() {
    let text = "100000000000000000001";
    let n = one_number(text);
    assert_eq!(number_value(text.as_bytes(), n, BIG_INTEGER), NumberValue::BigInt { start: 0, end: 21 });
    assert!(matches!(number_value(text.as_bytes(), n, 0), NumberValue::Float(_)));
    let neg = "-100000000000000000001";
    let n = one_number(neg);
    assert_eq!(number_value(neg.as_bytes(), n, BIG_INTEGER), NumberValue::BigInt { start: 0, end: 22 });
}

#[test]
fn big_integer_option_leaves_other_numbers() {
    let n = one_number("18446744073709551615");
    assert_eq!(number_value(b"18446744073709551615", n, BIG_INTEGER), NumberValue::Unsigned(u64::MAX));
    let n = one_number("-5");
    assert_eq!(number_value(b"-5", n, BIG_INTEGER), NumberValue::Signed(-5));
    for text in ["1.5", "100000000000000000001.0", "1e400", "100000000000000000001e2"] {
        let n = one_number(text);
        assert!(matches!(number_value(text.as_bytes(), n, BIG_INTEGER), NumberValue::Float(_)), "{}", text);
    }
}

#[test]
fn big_integer_inside_a_document() {
    let text = "[1, 123456789012345678901234567890]";
    let events = deserialize(PyInput::Str(Some(text)), BIG_INTEGER).unwrap();
    match &events[2] {
        Event::Number(n) => match number_value(text.as_bytes(), *n, BIG_INTEGER) {
            NumberValue::BigInt { start, end } => assert_eq!(&text[start..end], "123456789012345678901234567890"),
            other => panic!("unexpected {:?}", other),
        },
        _ => panic!("expected a number"),
    }
}

#[test]
fn big_integer_round_trip() {
    let writer = SerializePyObject::with_obtype(ObType::Int, BIG_INTEGER, 0, 0, false);
    assert_eq!(writer.serialize_int(0, true).unwrap(), IntText::Digits);
    for digits in ["100000000000000000001", "-98765432109876543210987654321"] {
        let written = writer.integer_digits(digits.as_bytes()).unwrap();
        let text = std::str::from_utf8(written).unwrap();
        let n = one_number(text);
        match number_value(written, n, BIG_INTEGER) {
            NumberValue::BigInt { start, end } => assert_eq!(&text[start..end], digits),
            other => panic!("unexpected {:?}", other),
        }
    }
}

#[test]
fn nan_as_null() {
    let events = deserialize(PyInput::Str(Some("{\"x\": nan}")), NAN_AS_NULL).unwrap();
    match events.as_slice() {
        [Event::StartObject, Event::Key(k), Event::Null, Event::EndObject] => assert_eq!(k.as_slice(), b"x"),
        _ => panic!("unexpected events"),
    }
    let events = deserialize_json("[nan, null]", true).unwrap();
    assert!(matches!(events.as_slice(), [Event::StartArray, Event::Null, Event::Null, Event::EndArray]));
}

#[test]
fn nan_without_the_option() {
    let e = deserialize(PyInput::Str(Some("{\"x\": nan}")), 0).unwrap_err();
    assert_eq!(e.message, "expected ident at line 1 column 8");
    let e = deserialize_json("nax", true).unwrap_err();
    assert_eq!(e.message, "expected ident at line 1 column 3");
    assert!(deserialize_json("NaN", true).is_err());
}

#[test]
fn deserializer_and_reader_agree() {
    for (text, opts) in [("[1, nan]", NAN_AS_NULL), ("[]", 0), ("{\"a\": [true]}", 0), ("[1,]", 0)] {
        let de = Deserializer::from_pyobject(PyInput::Str(Some(text))).unwrap();
        let a = de.deserialize(opts);
        let b = deserialize_json(text, opts & NAN_AS_NULL != 0);
        assert_eq!(format!("{:?}", a.as_ref().map_err(|e| &e.message)), format!("{:?}", b.as_ref().map_err(|e| &e.message)));
    }
}
