use orjson::json::de::Deserializer;

fn read_end(text: &str) -> usize {
    let mut de = Deserializer::from_str(text);
    let mut out = Vec::new();
    de.deserialize_any(&mut out).unwrap();
    de.byte_offset()
}

fn skip_end(text: &str) -> usize {
    let mut de = Deserializer::from_str(text);
    de.ignore_value().unwrap();
    de.byte_offset()
}

#[test]
fn skipping_stops_where_reading_stops() {
    for text in [
        r#"  [{"a": [1, 2.5e3, "x\u00e9\ud83d\ude00"]}, true, null] tail"#,
        r#"{"k": {"n": -0.5E-7}, "e": []} ,"#,
        "\"plain\" 1",
        "-12.75e+4]",
        "false,",
    ] {
        assert_eq!(read_end(text), skip_end(text), "{}", text);
    }
}

#[test]
fn number_text_stops_where_skipping_stops() {
    for text in ["12.5e-3 ", "0]", "7E+2,", "123456789012345678901234567890 "] {
        let mut de = Deserializer::from_str(text);
        de.parse_any_number_text(true).unwrap();
        assert_eq!(de.byte_offset(), skip_end(text), "{}", text);
    }
}

#[test]
fn skipping_has_no_depth_limit() {
    let deep = format!("{}{}", "[".repeat(300), "]".repeat(300));
    assert_eq!(skip_end(&deep), 600);
}
