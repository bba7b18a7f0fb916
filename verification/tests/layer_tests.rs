//! Driving the layer through its callbacks, the way the host runtime would.

use std::cell::RefCell;
use std::rc::Rc;
use std::time::Duration;

use time::format_description::well_known::Iso8601;
use time::parsing::Parsable;
use time::{OffsetDateTime, PrimitiveDateTime};

use tracing_json_span_fields::{
    EventMeta, FieldValue, HostError, JsonLayer, JsonObject, JsonOutput, JsonValue, Level,
    LevelFilter, SpanTable, TimestampFormat,
};

struct TestOutput {
    data: Rc<RefCell<Vec<JsonObject>>>,
}

impl JsonOutput for TestOutput {
    fn write(&self, record: JsonObject) {
        self.data.borrow_mut().push(record);
    }
}

fn str_field(name: &str, value: &str) -> (String, FieldValue) {
    (name.to_string(), FieldValue::Str(value.to_string()))
}

fn int_field(name: &str, value: i64) -> (String, FieldValue) {
    (name.to_string(), FieldValue::I64(value))
}

fn float_field(name: &str, value: f64) -> (String, FieldValue) {
    let rendered = serde_json::Number::from_f64(value).unwrap().to_string();
    (name.to_string(), FieldValue::NumText(rendered))
}

fn message(text: &str) -> (String, FieldValue) {
    ("message".to_string(), FieldValue::DebugText(text.to_string()))
}

fn float_value(value: f64) -> JsonValue {
    JsonValue::of_number_text(serde_json::Number::from_f64(value).unwrap().to_string())
}

fn meta(name: &str, level: Level) -> EventMeta {
    EventMeta {
        target: "tracing_json_span_fields::tests".to_string(),
        name: name.to_string(),
        level,
    }
}

fn expected_base(level: &str, message_text: &str) -> JsonObject {
    let mut obj = JsonObject::new();
    obj.insert(
        "target".to_string(),
        JsonValue::of_string("tracing_json_span_fields::tests".to_string()),
    );
    obj.insert("log_level".to_string(), JsonValue::of_string(level.to_string()));
    obj.insert("message".to_string(), JsonValue::of_string(message_text.to_string()));
    obj
}

/// A helper for asserting that a produced record matches expectations.
fn assert_json_timestamp_name_with_format(
    expected: &JsonObject,
    name_value_prefix: &str,
    before: &OffsetDateTime,
    record: &mut JsonObject,
    timestamp_format: &(impl Parsable + ?Sized),
) {
    let name_value = record.remove("name").expect("should contain field 'name'");
    let name_text = name_value.str_content().expect("field 'name' should be a string");
    assert!(name_text.starts_with(name_value_prefix));

    let ts_value = record.remove("timestamp").expect("should contain field 'timestamp'");
    let timestamp = ts_value
        .str_content()
        .expect("field 'timestamp' should be a string")
        .to_string();
    let parsed = PrimitiveDateTime::parse(&timestamp, timestamp_format)
        .expect("timestamp should be parseable")
        .assume_utc();
    assert!(
        (parsed + Duration::from_millis(1)).ge(before),
        "timestamp ({}) must not be before {}",
        timestamp,
        before
    );
    let now = &OffsetDateTime::now_utc();
    assert!(
        parsed.le(now),
        "timestamp ({}) must not be after {}",
        timestamp,
        now
    );

    assert!(JsonObject::same_map(expected, record));
}

/// A helper for asserting a record produced with the default timestamps.
fn assert_json_timestamp_name(
    expected: &JsonObject,
    name_value_prefix: &str,
    before: &OffsetDateTime,
    record: &mut JsonObject,
) {
    assert_json_timestamp_name_with_format(
        expected,
        name_value_prefix,
        before,
        record,
        &Iso8601::DEFAULT,
    )
}

#[test]
fn one_span_some_fields() {
    let data = Rc::new(RefCell::new(vec![]));
    let layer = JsonLayer::default().with_output(TestOutput { data: data.clone() });
    let mut table = SpanTable::new();

    let before = OffsetDateTime::now_utc();

    layer.on_new_span(&mut table, 1, &vec![int_field("field_top", 0)]);
    assert_eq!(
        Ok(true),
        layer.on_event(
            &table,
            &vec![1],
            &vec![str_field("field_event", "from event"), message("FOOBAR")],
            &meta("event src/lib.rs:389", Level::Info),
        )
    );
    assert_eq!(
        Ok(true),
        layer.on_event(
            &table,
            &vec![1],
            &vec![message("BAZ")],
            &meta("event src/lib.rs:390", Level::Error),
        )
    );
    table.span_closed(1);

    let mut data = data.borrow_mut();
    let mut iter = data.iter_mut();

    let mut expected = expected_base("INFO", "FOOBAR");
    expected.insert("field_top".to_string(), JsonValue::of_i64(0));
    expected.insert(
        "field_event".to_string(),
        JsonValue::of_string("from event".to_string()),
    );
    assert_json_timestamp_name(&expected, "event src/lib.rs:", &before, iter.next().unwrap());

    let mut expected = expected_base("ERROR", "BAZ");
    expected.insert("field_top".to_string(), JsonValue::of_i64(0));
    assert_json_timestamp_name(&expected, "event src/lib.rs:", &before, iter.next().unwrap());

    assert!(iter.next().is_none(), "No more logged events");
}

#[test]
fn two_spans_different_fields() {
    let data = Rc::new(RefCell::new(vec![]));
    let layer = JsonLayer::default().with_output(TestOutput { data: data.clone() });
    let mut table = SpanTable::new();

    let before = OffsetDateTime::now_utc();

    layer.on_new_span(&mut table, 1, &vec![int_field("field_top", 0)]);
    layer.on_new_span(&mut table, 2, &vec![int_field("field_second", 1)]);
    assert_eq!(
        Ok(true),
        layer.on_event(
            &table,
            &vec![1, 2],
            &vec![str_field("field_event", "from event"), message("FOOBAR")],
            &meta("event src/lib.rs:436", Level::Info),
        )
    );

    let mut data = data.borrow_mut();
    let mut iter = data.iter_mut();

    let mut expected = expected_base("INFO", "FOOBAR");
    expected.insert("field_top".to_string(), JsonValue::of_i64(0));
    expected.insert("field_second".to_string(), JsonValue::of_i64(1));
    expected.insert(
        "field_event".to_string(),
        JsonValue::of_string("from event".to_string()),
    );
    assert_json_timestamp_name(&expected, "event src/lib.rs:", &before, iter.next().unwrap());

    assert!(iter.next().is_none(), "No more logged events");
}

#[test]
fn two_spans_same_fields() {
    let data = Rc::new(RefCell::new(vec![]));
    let layer = JsonLayer::default().with_output(TestOutput { data: data.clone() });
    let mut table = SpanTable::new();

    let before = OffsetDateTime::now_utc();

    layer.on_new_span(&mut table, 1, &vec![int_field("field_overwrite", 0)]);
    layer.on_new_span(&mut table, 2, &vec![int_field("field_overwrite", 1)]);
    assert_eq!(
        Ok(true),
        layer.on_event(
            &table,
            &vec![1, 2],
            &vec![str_field("field_event", "from event"), message("FOOBAR")],
            &meta("event src/lib.rs:470", Level::Info),
        )
    );

    let mut data = data.borrow_mut();
    let mut iter = data.iter_mut();

    let mut expected = expected_base("INFO", "FOOBAR");
    expected.insert("field_overwrite".to_string(), JsonValue::of_i64(1));
    expected.insert(
        "field_event".to_string(),
        JsonValue::of_string("from event".to_string()),
    );
    assert_json_timestamp_name(&expected, "event src/lib.rs:", &before, iter.next().unwrap());

    assert!(iter.next().is_none(), "No more logged events");
}

#[test]
fn two_spans_same_fields_including_event() {
    let data = Rc::new(RefCell::new(vec![]));
    let layer = JsonLayer::default().with_output(TestOutput { data: data.clone() });
    let mut table = SpanTable::new();

    let before = OffsetDateTime::now_utc();

    layer.on_new_span(&mut table, 1, &vec![int_field("field_overwrite", 0)]);
    layer.on_new_span(&mut table, 2, &vec![int_field("field_overwrite", 1)]);
    assert_eq!(
        Ok(true),
        layer.on_event(
            &table,
            &vec![1, 2],
            &vec![str_field("field_overwrite", "from event"), message("FOOBAR")],
            &meta("event src/lib.rs:503", Level::Info),
        )
    );

    let mut data = data.borrow_mut();
    let mut iter = data.iter_mut();

    let mut expected = expected_base("INFO", "FOOBAR");
    expected.insert(
        "field_overwrite".to_string(),
        JsonValue::of_string("from event".to_string()),
    );
    assert_json_timestamp_name(&expected, "event src/lib.rs:", &before, iter.next().unwrap());

    assert!(iter.next().is_none(), "No more logged events");
}

#[test]
fn two_events_from_two_spans() {
    let data = Rc::new(RefCell::new(vec![]));
    let layer = JsonLayer::default().with_output(TestOutput { data: data.clone() });
    let mut table = SpanTable::new();

    let before = OffsetDateTime::now_utc();

    layer.on_new_span(&mut table, 1, &vec![int_field("field_top", 0)]);
    assert_eq!(
        Ok(true),
        layer.on_event(
            &table,
            &vec![1],
            &vec![str_field("field_event", "from event one"), message("ONE")],
            &meta("event src/lib.rs:534", Level::Info),
        )
    );
    layer.on_new_span(&mut table, 2, &vec![int_field("field_second", 1)]);
    assert_eq!(
        Ok(true),
        layer.on_event(
            &table,
            &vec![1, 2],
            &vec![str_field("field_event", "from event two"), message("TWO")],
            &meta("event src/lib.rs:536", Level::Info),
        )
    );

    let mut data = data.borrow_mut();
    let mut iter = data.iter_mut();

    let mut expected = expected_base("INFO", "ONE");
    expected.insert("field_top".to_string(), JsonValue::of_i64(0));
    expected.insert(
        "field_event".to_string(),
        JsonValue::of_string("from event one".to_string()),
    );
    assert_json_timestamp_name(&expected, "event src/lib.rs:", &before, iter.next().unwrap());

    let mut expected = expected_base("INFO", "TWO");
    expected.insert("field_top".to_string(), JsonValue::of_i64(0));
    expected.insert("field_second".to_string(), JsonValue::of_i64(1));
    expected.insert(
        "field_event".to_string(),
        JsonValue::of_string("from event two".to_string()),
    );
    assert_json_timestamp_name(&expected, "event src/lib.rs:", &before, iter.next().unwrap());

    assert!(iter.next().is_none(), "No more logged events");
}

#[test]
fn one_span_recorded_field() {
    let data = Rc::new(RefCell::new(vec![]));
    let layer = JsonLayer::default().with_output(TestOutput { data: data.clone() });
    let mut table = SpanTable::new();

    let before = OffsetDateTime::now_utc();

    layer.on_new_span(&mut table, 1, &vec![int_field("span_field", 0)]);
    assert_eq!(
        Ok(()),
        layer.on_record(&mut table, 1, &vec![str_field("recorded_field", "foo")])
    );
    assert_eq!(
        Ok(true),
        layer.on_event(
            &table,
            &vec![1],
            &vec![float_field("event_field", 1.1), message("FOOBAR")],
            &meta("event src/lib.rs:583", Level::Info),
        )
    );

    let mut data = data.borrow_mut();
    let mut iter = data.iter_mut();

    let mut expected = expected_base("INFO", "FOOBAR");
    expected.insert("event_field".to_string(), float_value(1.1));
    expected.insert(
        "recorded_field".to_string(),
        JsonValue::of_string("foo".to_string()),
    );
    expected.insert("span_field".to_string(), JsonValue::of_i64(0));
    assert_json_timestamp_name(&expected, "event src/lib.rs:", &before, iter.next().unwrap());

    assert!(iter.next().is_none(), "No more logged events");
}

#[test]
fn one_span_recorded_field_overwriting_initial_field() {
    let data = Rc::new(RefCell::new(vec![]));
    let layer = JsonLayer::default().with_output(TestOutput { data: data.clone() });
    let mut table = SpanTable::new();

    let before = OffsetDateTime::now_utc();

    layer.on_new_span(&mut table, 1, &vec![int_field("span_field", 0)]);
    assert_eq!(
        Ok(()),
        layer.on_record(&mut table, 1, &vec![str_field("span_field", "foo")])
    );
    assert_eq!(
        Ok(true),
        layer.on_event(
            &table,
            &vec![1],
            &vec![float_field("event_field", 1.1), message("FOOBAR")],
            &meta("event src/lib.rs:618", Level::Info),
        )
    );

    let mut data = data.borrow_mut();
    let mut iter = data.iter_mut();

    let mut expected = expected_base("INFO", "FOOBAR");
    expected.insert("event_field".to_string(), float_value(1.1));
    expected.insert(
        "span_field".to_string(),
        JsonValue::of_string("foo".to_string()),
    );
    assert_json_timestamp_name(&expected, "event src/lib.rs:", &before, iter.next().unwrap());

    assert!(iter.next().is_none(), "No more logged events");
}

#[test]
fn without_any_spans() {
    let data = Rc::new(RefCell::new(vec![]));
    let layer = JsonLayer::default().with_output(TestOutput { data: data.clone() });
    let table = SpanTable::new();

    let before = OffsetDateTime::now_utc();

    assert_eq!(
        Ok(true),
        layer.on_event(
            &table,
            &vec![],
            &vec![float_field("event_field", 1.1), message("FOOBAR")],
            &meta("event src/lib.rs:649", Level::Info),
        )
    );

    let mut data = data.borrow_mut();
    let mut iter = data.iter_mut();

    let mut expected = expected_base("INFO", "FOOBAR");
    expected.insert("event_field".to_string(), float_value(1.1));
    assert_json_timestamp_name(&expected, "event src/lib.rs:", &before, iter.next().unwrap());

    assert!(iter.next().is_none(), "No more logged events");
}

#[test]
fn custom_timestamp() {
    let description = "[year]-[month]-[day] [hour]:[minute]:[second].[subsecond digits:3]";
    let data = Rc::new(RefCell::new(vec![]));
    let layer = JsonLayer::default()
        .with_output(TestOutput { data: data.clone() })
        .with_timestamp_format(TimestampFormat::Custom(description.to_string()));
    let table = SpanTable::new();

    let before = OffsetDateTime::now_utc();

    assert_eq!(
        Ok(true),
        layer.on_event(
            &table,
            &vec![],
            &vec![float_field("event_field", 1.1), message("FOOBAR")],
            &meta("event src/lib.rs:684", Level::Info),
        )
    );

    let mut data = data.borrow_mut();
    let mut iter = data.iter_mut();

    let mut expected = expected_base("INFO", "FOOBAR");
    expected.insert("event_field".to_string(), float_value(1.1));
    let parsed_format = time::format_description::parse(description).unwrap();
    assert_json_timestamp_name_with_format(
        &expected,
        "event src/lib.rs:",
        &before,
        iter.next().unwrap(),
        &parsed_format,
    );

    assert!(iter.next().is_none(), "No more logged events");
}

#[test]
fn logging_levels() {
    let data = Rc::new(RefCell::new(vec![]));
    let layer = JsonLayer::default().with_output(TestOutput { data: data.clone() });
    let table = SpanTable::new();

    let before = OffsetDateTime::now_utc();

    assert_eq!(
        Ok(true),
        layer.on_event(
            &table,
            &vec![],
            &vec![message("INFO")],
            &meta("event src/lib.rs:715", Level::Info),
        )
    );
    assert_eq!(
        Ok(false),
        layer.on_event(
            &table,
            &vec![],
            &vec![message("TRACE")],
            &meta("event src/lib.rs:716", Level::Trace),
        )
    );

    let mut data = data.borrow_mut();
    let mut iter = data.iter_mut();

    let expected = expected_base("INFO", "INFO");
    assert_json_timestamp_name(&expected, "event src/lib.rs:", &before, iter.next().unwrap());

    assert!(iter.next().is_none(), "No more logged events");
}

#[test]
fn logging_levels_trace() {
    let data = Rc::new(RefCell::new(vec![]));
    let layer = JsonLayer::default()
        .with_output(TestOutput { data: data.clone() })
        .with_level(LevelFilter::Trace);
    let table = SpanTable::new();

    let before = OffsetDateTime::now_utc();

    assert_eq!(
        Ok(true),
        layer.on_event(
            &table,
            &vec![],
            &vec![message("INFO")],
            &meta("event src/lib.rs:747", Level::Info),
        )
    );
    assert_eq!(
        Ok(true),
        layer.on_event(
            &table,
            &vec![],
            &vec![message("TRACE")],
            &meta("event src/lib.rs:748", Level::Trace),
        )
    );

    let mut data = data.borrow_mut();
    let mut iter = data.iter_mut();

    let expected = expected_base("INFO", "INFO");
    assert_json_timestamp_name(&expected, "event src/lib.rs:", &before, iter.next().unwrap());

    let expected = expected_base("TRACE", "TRACE");
    assert_json_timestamp_name(&expected, "event src/lib.rs:", &before, iter.next().unwrap());

    assert!(iter.next().is_none(), "No more logged events");
}

#[test]
fn logging_levels_off() {
    let data = Rc::new(RefCell::new(vec![]));
    let layer = JsonLayer::default()
        .with_output(TestOutput { data: data.clone() })
        .with_level(LevelFilter::Off);
    let table = SpanTable::new();

    assert_eq!(
        Ok(false),
        layer.on_event(
            &table,
            &vec![],
            &vec![message("INFO")],
            &meta("event src/lib.rs:787", Level::Info),
        )
    );
    assert_eq!(
        Ok(false),
        layer.on_event(
            &table,
            &vec![],
            &vec![message("TRACE")],
            &meta("event src/lib.rs:788", Level::Trace),
        )
    );

    let mut data = data.borrow_mut();
    let mut iter = data.iter_mut();

    assert!(iter.next().is_none(), "No logged events");
}

#[test]
fn record_on_unknown_span_fails() {
    let layer = JsonLayer::default().with_output(JsonStdoutDummy);
    let mut table = SpanTable::new();
    assert_eq!(
        Err(HostError::UnknownSpan(7)),
        layer.on_record(&mut table, 7, &vec![str_field("a", "b")])
    );
}

#[test]
fn event_on_unknown_span_fails() {
    let layer = JsonLayer::default().with_output(JsonStdoutDummy);
    let mut table = SpanTable::new();
    layer.on_new_span(&mut table, 1, &vec![int_field("x", 0)]);
    table.span_closed(1);
    assert_eq!(
        Err(HostError::UnknownSpan(1)),
        layer.on_event(
            &table,
            &vec![1],
            &vec![message("gone")],
            &meta("event src/lib.rs:1", Level::Info),
        )
    );
}

#[test]
fn build_event_record_is_deterministic() {
    let layer = JsonLayer::default().with_output(JsonStdoutDummy);
    let mut table = SpanTable::new();
    layer.on_new_span(&mut table, 1, &vec![int_field("field_top", 0)]);
    layer.on_new_span(&mut table, 2, &vec![int_field("field_top", 7)]);
    let record = layer
        .build_event_record(
            &table,
            &vec![1, 2],
            &vec![str_field("field_event", "from event"), message("FOOBAR")],
            &meta("event src/lib.rs:42", Level::Warn),
            "2023-07-25T09:53:01Z".to_string(),
        )
        .unwrap();

    let mut expected = JsonObject::new();
    expected.insert("field_top".to_string(), JsonValue::of_i64(7));
    expected.insert(
        "field_event".to_string(),
        JsonValue::of_string("from event".to_string()),
    );
    expected.insert(
        "message".to_string(),
        JsonValue::of_string("FOOBAR".to_string()),
    );
    expected.insert(
        "target".to_string(),
        JsonValue::of_string("tracing_json_span_fields::tests".to_string()),
    );
    expected.insert(
        "name".to_string(),
        JsonValue::of_string("event src/lib.rs:42".to_string()),
    );
    expected.insert("log_level".to_string(), JsonValue::of_string("WARN".to_string()));
    expected.insert(
        "timestamp".to_string(),
        JsonValue::of_string("2023-07-25T09:53:01Z".to_string()),
    );
    assert!(JsonObject::same_map(&expected, &record));
}

#[test]
fn builders_replace_one_setting_at_a_time() {
    let layer = JsonLayer::pretty()
        .with_level(LevelFilter::Debug)
        .with_timestamp_format(TimestampFormat::Custom("[year]".to_string()));
    assert_eq!(LevelFilter::Debug, layer.max_level_hint());
    assert!(layer.enabled(Level::Debug));
    assert!(layer.enabled(Level::Error));
    assert!(!layer.enabled(Level::Trace));

    let layer = layer.with_level(LevelFilter::Error);
    assert_eq!(LevelFilter::Error, layer.max_level_hint());
    assert!(!layer.enabled(Level::Warn));
    assert!(layer.enabled(Level::Error));
}

#[test]
fn span_creation_order_does_not_matter() {
    // The merged fields of an event depend only on its own chain, root
    // first, not on the order in which the stores were created (spans on
    // other threads may open in any order relative to this chain).
    let mut expected_records: Vec<JsonObject> = vec![];
    for reversed in [false, true] {
        let data = Rc::new(RefCell::new(vec![]));
        let layer = JsonLayer::default().with_output(TestOutput { data: data.clone() });
        let mut table = SpanTable::new();
        let spans = [
            (1, int_field("x", 0)),
            (2, int_field("y", 1)),
        ];
        if reversed {
            for (id, field) in spans.iter().rev() {
                layer.on_new_span(&mut table, *id, &vec![field.clone()]);
            }
        } else {
            for (id, field) in spans.iter() {
                layer.on_new_span(&mut table, *id, &vec![field.clone()]);
            }
        }
        assert_eq!(
            Ok(true),
            layer.on_event(
                &table,
                &vec![1, 2],
                &vec![str_field("z", "v"), message("FOOBAR")],
                &meta("event src/lib.rs:84", Level::Info),
            )
        );
        let mut record = data.borrow_mut().pop().unwrap();
        let mut expected = expected_base("INFO", "FOOBAR");
        expected.insert("x".to_string(), JsonValue::of_i64(0));
        expected.insert("y".to_string(), JsonValue::of_i64(1));
        expected.insert("z".to_string(), JsonValue::of_string("v".to_string()));
        let before = OffsetDateTime::now_utc() - Duration::from_secs(60);
        assert_json_timestamp_name(&expected, "event src/lib.rs:", &before, &mut record);
        expected_records.push(record);
    }
    assert!(JsonObject::same_map(&expected_records[0], &expected_records[1]));
}

/// An output that discards records, for tests that never produce one.
struct JsonStdoutDummy;

impl JsonOutput for JsonStdoutDummy {
    fn write(&self, _record: JsonObject) {}
}

#[test]
fn raising_the_threshold_only_shrinks_the_output() {
    let severities = [
        Level::Trace,
        Level::Debug,
        Level::Info,
        Level::Warn,
        Level::Error,
    ];
    let filters = [
        LevelFilter::Off,
        LevelFilter::Error,
        LevelFilter::Warn,
        LevelFilter::Info,
        LevelFilter::Debug,
        LevelFilter::Trace,
    ];
    let mut previous: Option<Vec<bool>> = None;
    for filter in filters {
        let data = Rc::new(RefCell::new(vec![]));
        let layer = JsonLayer::default()
            .with_output(TestOutput { data: data.clone() })
            .with_level(filter);
        let table = SpanTable::new();
        let mut written = vec![];
        for (i, level) in severities.iter().enumerate() {
            let result = layer.on_event(
                &table,
                &vec![],
                &vec![message("severity probe")],
                &meta(&format!("event src/lib.rs:{}", i), *level),
            );
            written.push(result == Ok(true));
        }
        assert_eq!(
            written.iter().filter(|w| **w).count(),
            data.borrow().len(),
            "every admitted event reaches the output"
        );
        if let Some(prev) = &previous {
            for (was, now) in prev.iter().zip(written.iter()) {
                assert!(!*was || *now, "loosening the filter must keep every event");
            }
        }
        previous = Some(written);
    }
}
