//! The building blocks: values, the number-literal checker, objects, and
//! the severity filter.

use tracing_json_span_fields::num::check_number_literal;
use tracing_json_span_fields::value::{value_eq, visit_field_value};
use tracing_json_span_fields::{FieldValue, JsonObject, JsonValue};

#[test]
fn number_literal_grammar() {
    for good in [
        "0", "-0", "7", "42", "-42", "3.14", "-0.5", "1e3", "1E3", "1e+3", "1e-3", "-1.25e3",
        "10.01", "9007199254740993",
    ] {
        assert!(check_number_literal(good), "{} is a number literal", good);
    }
    for bad in [
        "", "-", "01", "00", "+1", "1.", ".5", "1.e3", "1e", "1e+", "1..2", "0x10", "1 ", " 1",
        "NaN", "inf", "1,5", "--1", "1.2.3", "e3",
    ] {
        assert!(!check_number_literal(bad), "{} is not a number literal", bad);
    }
}

#[test]
fn visitor_is_total_and_exact() {
    let cases: Vec<((String, FieldValue), JsonValue)> = vec![
        (("a".to_string(), FieldValue::I64(-3)), JsonValue::Int(-3)),
        (("b".to_string(), FieldValue::I64(3)), JsonValue::UInt(3)),
        (("c".to_string(), FieldValue::U64(9)), JsonValue::UInt(9)),
        (("d".to_string(), FieldValue::Bool(false)), JsonValue::Bool(false)),
        (
            ("e".to_string(), FieldValue::Str("s".to_string())),
            JsonValue::Str("s".to_string()),
        ),
        (
            ("f".to_string(), FieldValue::ErrorText("oops".to_string())),
            JsonValue::Str("oops".to_string()),
        ),
        (
            ("g".to_string(), FieldValue::DebugText("Dbg".to_string())),
            JsonValue::Str("Dbg".to_string()),
        ),
        (
            ("h".to_string(), FieldValue::NumText("2.5".to_string())),
            JsonValue::NumText("2.5".to_string()),
        ),
        (
            ("i".to_string(), FieldValue::NumText("nope".to_string())),
            JsonValue::Str("nope".to_string()),
        ),
    ];
    for ((_, fv), expected) in cases {
        let got = visit_field_value(fv);
        assert!(value_eq(&got, &expected));
    }
}

#[test]
fn signed_and_unsigned_integers_compare_equal() {
    let a = visit_field_value(FieldValue::I64(5));
    let b = visit_field_value(FieldValue::U64(5));
    assert!(value_eq(&a, &b));
    let c = visit_field_value(FieldValue::I64(-5));
    assert!(!value_eq(&a, &c));
}

#[test]
fn insert_replaces_in_place_and_keeps_order() {
    let mut obj = JsonObject::new();
    obj.insert("x".to_string(), JsonValue::of_i64(1));
    obj.insert("y".to_string(), JsonValue::of_i64(2));
    obj.insert("x".to_string(), JsonValue::of_string("later".to_string()));
    assert_eq!(2, obj.len());
    assert!(value_eq(
        obj.get("x").unwrap(),
        &JsonValue::of_string("later".to_string())
    ));
    assert!(value_eq(obj.get("y").unwrap(), &JsonValue::of_i64(2)));
    assert!(obj.get("z").is_none());
}

#[test]
fn remove_takes_the_field_out() {
    let mut obj = JsonObject::new();
    obj.insert("x".to_string(), JsonValue::of_i64(1));
    let removed = obj.remove("x").unwrap();
    assert!(value_eq(&removed, &JsonValue::of_i64(1)));
    assert!(obj.get("x").is_none());
    assert!(obj.remove("x").is_none());
}

#[test]
fn merge_from_prefers_the_other_object() {
    let mut base = JsonObject::new();
    base.insert("keep".to_string(), JsonValue::of_i64(1));
    base.insert("overwrite".to_string(), JsonValue::of_i64(0));
    let mut other = JsonObject::new();
    other.insert("overwrite".to_string(), JsonValue::of_i64(1));
    other.insert("fresh".to_string(), JsonValue::of_bool(true));
    base.merge_from(&other);
    assert_eq!(3, base.len());
    assert!(value_eq(base.get("keep").unwrap(), &JsonValue::of_i64(1)));
    assert!(value_eq(base.get("overwrite").unwrap(), &JsonValue::of_i64(1)));
    assert!(value_eq(base.get("fresh").unwrap(), &JsonValue::of_bool(true)));
}

#[test]
fn same_map_ignores_entry_order() {
    let mut a = JsonObject::new();
    a.insert("x".to_string(), JsonValue::of_i64(1));
    a.insert("y".to_string(), JsonValue::of_i64(2));
    let mut b = JsonObject::new();
    b.insert("y".to_string(), JsonValue::of_i64(2));
    b.insert("x".to_string(), JsonValue::of_i64(1));
    assert!(JsonObject::same_map(&a, &b));
    b.insert("x".to_string(), JsonValue::of_i64(3));
    assert!(!JsonObject::same_map(&a, &b));
}
