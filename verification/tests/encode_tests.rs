//! The rendered text of records: exact output, escaping, and round-trips
//! through a JSON parser.

use tracing_json_span_fields::encode::encode_record;
use tracing_json_span_fields::{JsonObject, JsonValue};

fn sample_object() -> JsonObject {
    let mut obj = JsonObject::new();
    obj.insert("a".to_string(), JsonValue::of_i64(1));
    obj.insert("b".to_string(), JsonValue::of_i64(-2));
    obj.insert("c".to_string(), JsonValue::of_bool(true));
    obj.insert("d".to_string(), JsonValue::Null);
    obj.insert("e".to_string(), JsonValue::of_string("x\"y\n".to_string()));
    obj.insert("f".to_string(), JsonValue::of_number_text("1.5".to_string()));
    obj
}

#[test]
fn compact_encoding_is_exact() {
    let text = encode_record(&sample_object(), false);
    assert_eq!(
        "{\"a\":1,\"b\":-2,\"c\":true,\"d\":null,\"e\":\"x\\\"y\\n\",\"f\":1.5}",
        text
    );
}

#[test]
fn pretty_encoding_is_exact() {
    let mut obj = JsonObject::new();
    obj.insert("a".to_string(), JsonValue::of_u64(1));
    obj.insert("b".to_string(), JsonValue::of_string("two".to_string()));
    let text = encode_record(&obj, true);
    assert_eq!("{\n  \"a\": 1,\n  \"b\": \"two\"\n}", text);
}

#[test]
fn empty_object_encodings() {
    let obj = JsonObject::new();
    assert_eq!("{}", encode_record(&obj, false));
    assert_eq!("{}", encode_record(&obj, true));
}

#[test]
fn control_characters_are_escaped() {
    let mut obj = JsonObject::new();
    obj.insert(
        "k".to_string(),
        JsonValue::of_string("\u{1}\u{8}\u{9}\u{c}\u{d}\u{1f}\\".to_string()),
    );
    let text = encode_record(&obj, false);
    assert_eq!("{\"k\":\"\\u0001\\b\\t\\f\\r\\u001f\\\\\"}", text);
}

#[test]
fn integer_boundaries_encode_exactly() {
    let mut obj = JsonObject::new();
    obj.insert("min".to_string(), JsonValue::of_i64(i64::MIN));
    obj.insert("max".to_string(), JsonValue::of_u64(u64::MAX));
    obj.insert("zero".to_string(), JsonValue::of_i64(0));
    let text = encode_record(&obj, false);
    assert_eq!(
        "{\"min\":-9223372036854775808,\"max\":18446744073709551615,\"zero\":0}",
        text
    );
}

#[test]
fn invalid_number_text_degrades_to_string() {
    let mut obj = JsonObject::new();
    obj.insert("bad".to_string(), JsonValue::of_number_text("not-a-number".to_string()));
    obj.insert("good".to_string(), JsonValue::of_number_text("-1.25e3".to_string()));
    let text = encode_record(&obj, false);
    assert_eq!("{\"bad\":\"not-a-number\",\"good\":-1.25e3}", text);
}

#[test]
fn compact_records_stay_on_one_line() {
    let mut obj = JsonObject::new();
    obj.insert(
        "multi\nline\nkey".to_string(),
        JsonValue::of_string("line one\nline two\r\n".to_string()),
    );
    obj.insert("plain".to_string(), JsonValue::of_i64(-7));
    let text = encode_record(&obj, false);
    assert!(!text.contains('\n'), "one record must stay one line: {}", text);
    let parsed: serde_json::Value = serde_json::from_str(&text).unwrap();
    assert_eq!(
        Some("line one\nline two\r\n"),
        parsed.get("multi\nline\nkey").and_then(|v| v.as_str())
    );
}

#[test]
fn every_encoding_parses_as_a_json_object() {
    let samples = [
        (JsonObject::new(), false),
        (JsonObject::new(), true),
        (sample_object(), false),
        (sample_object(), true),
    ];
    for (obj, pretty) in samples {
        let text = encode_record(&obj, pretty);
        let parsed: serde_json::Value = serde_json::from_str(&text).expect("output must be valid JSON");
        assert!(parsed.is_object(), "the top-level value must be an object");
    }
}

#[test]
fn round_trip_matches_a_reference_parser() {
    let text = encode_record(&sample_object(), false);
    let parsed: serde_json::Value = serde_json::from_str(&text).unwrap();

    let mut expected = serde_json::Map::new();
    expected.insert("a".to_string(), serde_json::Value::from(1u64));
    expected.insert("b".to_string(), serde_json::Value::from(-2i64));
    expected.insert("c".to_string(), serde_json::Value::from(true));
    expected.insert("d".to_string(), serde_json::Value::Null);
    expected.insert("e".to_string(), serde_json::Value::from("x\"y\n"));
    expected.insert("f".to_string(), serde_json::Value::from(1.5f64));
    assert_eq!(serde_json::Value::Object(expected), parsed);

    let pretty_text = encode_record(&sample_object(), true);
    let pretty_parsed: serde_json::Value = serde_json::from_str(&pretty_text).unwrap();
    assert_eq!(parsed, pretty_parsed);
}
