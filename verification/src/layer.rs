//! The JSON layer: configuration, event assembly, and the output sink.
//!
//! A `JsonLayer` holds the process-wide configuration, set once when the
//! plugin is constructed and immutable afterwards: the minimum severity the
//! severity filter accepts, the rendering of the `timestamp` field, and
//! the output that finished records go to.  Its callbacks react to the host
//! runtime opening spans, recording fields, and emitting events; the span
//! stores themselves live in a [`SpanTable`] owned by the caller, so that
//! the caller can serialize concurrent access around it.

use vstd::prelude::*;

use std::io::Write;

use crate::encode::encode_record;
use crate::level::{admits, level_as_str, level_enabled, level_label, Level, LevelFilter};
use crate::object::JsonObject;
use crate::pairs::{lemma_pairs_map_push, pairs_map};
use crate::table::{merged_of, HostError, SpanTable};
use crate::value::{json_of, visit_field_value, FieldValue, JsonValue, ValueView};

verus! {

/// Something that can write out a finished record.
///
/// The default output writes line-delimited JSON to standard output;
/// alternate outputs (capturing into memory for tests, another transport)
/// substitute without changing any other component.  A write is fire and
/// forget: the core inspects no result, and an implementation is expected
/// to report failure on a side channel rather than panic, since losing the
/// ability to log must not crash the instrumented program.
pub trait JsonOutput {
    fn write(&self, record: JsonObject);
}

/// Relies on std::io::Stdout (via writeln): writes the text and a newline
/// to standard output, reporting whether the write succeeded.
#[verifier::external_body]
fn write_stdout_line(s: &str) -> bool {
    writeln!(std::io::stdout(), "{}", s).is_ok()
}

/// Relies on std::io::Stderr (via writeln): reports a diagnostic on
/// standard error, ignoring failure there.
#[verifier::external_body]
fn write_stderr_line(s: &str) {
    let _ = writeln!(std::io::stderr(), "{}", s);
}

/// Default [`JsonOutput`]: one record per line on standard output, compact
/// or pretty.
pub struct JsonStdout {
    pub pretty: bool,
}

impl Default for JsonStdout {
    fn default() -> (r: Self)
        ensures
            !r.pretty,
    {
        JsonStdout { pretty: false }
    }
}

impl JsonOutput for JsonStdout {
    fn write(&self, record: JsonObject) {
        let text = encode_record(&record, self.pretty);
        if !write_stdout_line(text.as_str()) {
            write_stderr_line("could not write log record to stdout");
        }
    }
}

/// How the `timestamp` metadata field is rendered.
pub enum TimestampFormat {
    /// The ISO 8601 rendering of the time crate's well-known format.
    Iso8601,
    /// A format description in the time crate's syntax, parsed when a
    /// record is assembled.
    Custom(String),
}

/// Relies on time::OffsetDateTime::now_utc and OffsetDateTime::format with
/// the well-known ISO 8601 description: renders the current UTC time, or
/// nothing if formatting fails.  The result depends on the clock, so
/// nothing is promised of it.
#[verifier::external_body]
fn now_iso8601() -> Option<String> {
    time::OffsetDateTime::now_utc().format(
        &time::format_description::well_known::Iso8601::DEFAULT,
    ).ok()
}

/// Relies on time::format_description::parse and OffsetDateTime::format:
/// renders the current UTC time with the given format description, or
/// nothing if the description does not parse or formatting fails.  The
/// result depends on the clock, so nothing is promised of it.
#[verifier::external_body]
fn now_with_description(desc: &str) -> Option<String> {
    match time::format_description::parse(desc) {
        Ok(items) => time::OffsetDateTime::now_utc().format(&items).ok(),
        Err(_) => None,
    }
}

/// Renders the current UTC time in the configured format.  A format that
/// cannot be used yields the empty string rather than a panic: a record
/// with an empty timestamp still goes out.
fn format_now(fmt: &TimestampFormat) -> String {
    let rendered = match fmt {
        TimestampFormat::Iso8601 => now_iso8601(),
        TimestampFormat::Custom(desc) => now_with_description(desc.as_str()),
    };
    match rendered {
        Some(s) => s,
        None => String::new(),
    }
}

/// The fixed metadata of one event: its subsystem path, its display name,
/// and its severity.
pub struct EventMeta {
    pub target: String,
    pub name: String,
    pub level: Level,
}

/// What one entry of a typed field list becomes once visited.
pub open spec fn visited_entry(e: (String, FieldValue)) -> (Seq<char>, ValueView) {
    (e.0@, json_of(e.1))
}

/// A typed field list once visited, entry by entry.
pub open spec fn visited_seq(s: Seq<(String, FieldValue)>) -> Seq<(Seq<char>, ValueView)> {
    s.map(|i: int, e: (String, FieldValue)| visited_entry(e))
}

/// The mapping that visiting a field list produces, a later duplicate of a
/// key winning over an earlier one.
pub open spec fn fields_map(s: Seq<(String, FieldValue)>) -> Map<Seq<char>, ValueView> {
    pairs_map(visited_seq(s))
}

/// The mapping of a finished record: the merged span context, overlaid by
/// the event's own fields, overlaid last — so that no user field can shadow
/// them — by the four reserved metadata keys.
pub open spec fn assembled(
    merged: Map<Seq<char>, ValueView>,
    own: Map<Seq<char>, ValueView>,
    target: Seq<char>,
    name: Seq<char>,
    level: Level,
    timestamp: Seq<char>,
) -> Map<Seq<char>, ValueView> {
    merged.union_prefer_right(own).insert("target"@, ValueView::Str(target)).insert(
        "name"@,
        ValueView::Str(name),
    ).insert("log_level"@, ValueView::Str(level_label(level))).insert(
        "timestamp"@,
        ValueView::Str(timestamp),
    )
}

/// Visits a field list into an object, overlaying it onto `base`.
fn visit_fields_onto(base: JsonObject, fields: &Vec<(String, FieldValue)>) -> (r: JsonObject)
    requires
        base.wf(),
    ensures
        r.wf(),
        r.as_map() == base.as_map().union_prefer_right(fields_map(fields@)),
{
    let mut obj = base;
    let n = fields.len();
    let mut j: usize = 0;
    proof {
        assert(visited_seq(fields@.subrange(0, 0)) =~= Seq::<(Seq<char>, ValueView)>::empty());
        assert(obj.as_map() =~= obj.as_map().union_prefer_right(
            pairs_map(visited_seq(fields@.subrange(0, 0))),
        ));
    }
    while j < n
        invariant
            j <= n,
            n == fields@.len(),
            obj.wf(),
            obj.as_map() == base.as_map().union_prefer_right(
                pairs_map(visited_seq(fields@.subrange(0, j as int))),
            ),
        decreases n - j,
    {
        let e = &fields[j];
        let name = e.0.clone();
        let value = visit_field_value(e.1.clone());
        obj.insert(name, value);
        proof {
            let prefix = visited_seq(fields@.subrange(0, j as int));
            let entry = visited_entry(fields@[j as int]);
            lemma_pairs_map_push(prefix, entry);
            assert(prefix.push(entry) =~= visited_seq(fields@.subrange(0, j as int + 1)));
            assert(pairs_map(visited_seq(fields@.subrange(0, j as int + 1))) == pairs_map(
                prefix,
            ).insert(entry.0, entry.1));
            assert(obj.as_map() == base.as_map().union_prefer_right(pairs_map(prefix)).insert(
                entry.0,
                entry.1,
            ));
            assert(obj.as_map() =~= base.as_map().union_prefer_right(
                pairs_map(visited_seq(fields@.subrange(0, j as int + 1))),
            ));
        }
        j = j + 1;
    }
    proof {
        assert(fields@.subrange(0, n as int) =~= fields@);
    }
    obj
}

/// Assembles the record for one event: takes the merged span context,
/// overlays the event's own fields (the event is more specific than any
/// enclosing span, so its values win), then writes the four reserved
/// metadata keys last, so that a user field of the same name is overwritten
/// by the metadata value and never the reverse.
pub fn assemble_record(
    merged: JsonObject,
    own_fields: &Vec<(String, FieldValue)>,
    meta: &EventMeta,
    timestamp: String,
) -> (r: JsonObject)
    requires
        merged.wf(),
    ensures
        r.wf(),
        r.as_map() == assembled(
            merged.as_map(),
            fields_map(own_fields@),
            meta.target@,
            meta.name@,
            meta.level,
            timestamp@,
        ),
{
    let mut obj = visit_fields_onto(merged, own_fields);
    obj.insert("target".to_owned(), JsonValue::of_string(meta.target.clone()));
    obj.insert("name".to_owned(), JsonValue::of_string(meta.name.clone()));
    obj.insert("log_level".to_owned(), JsonValue::of_string(level_as_str(meta.level).to_owned()));
    obj.insert("timestamp".to_owned(), JsonValue::of_string(timestamp));
    obj
}

/// The plugin's configuration: a minimum severity, a timestamp format, and
/// an output, chosen once at construction and immutable afterwards.
pub struct JsonLayer<O: JsonOutput> {
    /// Destination for finished records.
    pub output: O,
    /// Rendering of the `timestamp` metadata field.
    pub timestamp_format: TimestampFormat,
    /// Minimum severity that the filter accepts.
    pub max_level: LevelFilter,
}

impl Default for JsonLayer<JsonStdout> {
    /// Compact records on standard output, ISO 8601 timestamps, severity
    /// `Info` and up.
    fn default() -> (r: Self)
        ensures
            !r.output.pretty,
            r.timestamp_format is Iso8601,
            r.max_level == LevelFilter::Info,
    {
        JsonLayer {
            output: JsonStdout { pretty: false },
            timestamp_format: TimestampFormat::Iso8601,
            max_level: LevelFilter::Info,
        }
    }
}

impl JsonLayer<JsonStdout> {
    /// The default configuration with indented output.
    pub fn pretty() -> (r: JsonLayer<JsonStdout>)
        ensures
            r.output.pretty,
            r.timestamp_format is Iso8601,
            r.max_level == LevelFilter::Info,
    {
        JsonLayer {
            output: JsonStdout { pretty: true },
            timestamp_format: TimestampFormat::Iso8601,
            max_level: LevelFilter::Info,
        }
    }
}

impl<O: JsonOutput> JsonLayer<O> {
    /// Replaces the output, keeping the rest of the configuration.
    pub fn with_output<O2: JsonOutput>(self, output: O2) -> (r: JsonLayer<O2>)
        ensures
            r.output == output,
            r.timestamp_format == self.timestamp_format,
            r.max_level == self.max_level,
    {
        JsonLayer { output, timestamp_format: self.timestamp_format, max_level: self.max_level }
    }

    /// Replaces the timestamp format, keeping the rest.
    pub fn with_timestamp_format(self, timestamp_format: TimestampFormat) -> (r: JsonLayer<O>)
        ensures
            r.output == self.output,
            r.timestamp_format == timestamp_format,
            r.max_level == self.max_level,
    {
        JsonLayer { output: self.output, timestamp_format, max_level: self.max_level }
    }

    /// Replaces the severity threshold, keeping the rest.
    pub fn with_level(self, max_level: LevelFilter) -> (r: JsonLayer<O>)
        ensures
            r.output == self.output,
            r.timestamp_format == self.timestamp_format,
            r.max_level == max_level,
    {
        JsonLayer { output: self.output, timestamp_format: self.timestamp_format, max_level }
    }

    /// The severity filter: whether a span or event of this severity is worth
    /// any work at all.  The host runtime is expected to consult this
    /// before invoking the other callbacks.
    pub fn enabled(&self, level: Level) -> (r: bool)
        ensures
            r == admits(self.max_level, level),
    {
        level_enabled(self.max_level, level)
    }

    /// The threshold, advertised to the host runtime so that severities
    /// below it can be filtered out before any callback fires.
    pub fn max_level_hint(&self) -> (r: LevelFilter)
        ensures
            r == self.max_level,
    {
        self.max_level
    }

    /// A span opened: allocates its field store, pre-populated by visiting
    /// the construction-time field list, before the span can be observed by
    /// any merge.
    pub fn on_new_span(&self, table: &mut SpanTable, id: u64, fields: &Vec<(String, FieldValue)>)
        requires
            old(table).wf(),
        ensures
            final(table).wf(),
            final(table)@ == old(table)@.insert(id, fields_map(fields@)),
    {
        let obj = visit_fields_onto(JsonObject::new(), fields);
        proof {
            assert(obj.as_map() =~= fields_map(fields@));
        }
        table.span_opened(id, obj);
    }

    /// Fields recorded on an open span: visits them into the span's store,
    /// last write winning per key.  Fails if the span's store was never
    /// created, which breaks the host's callback-ordering contract.
    pub fn on_record(
        &self,
        table: &mut SpanTable,
        id: u64,
        fields: &Vec<(String, FieldValue)>,
    ) -> (r: Result<(), HostError>)
        requires
            old(table).wf(),
        ensures
            final(table).wf(),
            match r {
                Ok(()) => old(table)@.contains_key(id) && final(table)@ == old(table)@.insert(
                    id,
                    old(table)@[id].union_prefer_right(fields_map(fields@)),
                ),
                Err(e) => e == HostError::UnknownSpan(id) && !old(table)@.contains_key(id)
                    && final(table)@ == old(table)@,
            },
    {
        let obj = visit_fields_onto(JsonObject::new(), fields);
        proof {
            assert(obj.as_map() =~= fields_map(fields@));
        }
        table.fields_recorded(id, &obj)
    }

    /// Builds the record that an event produces, given the timestamp text:
    /// the merged context of the event's root-first span chain, the event's
    /// own fields, and the reserved metadata keys.  Fails if and only if
    /// the chain names a span without a store.
    pub fn build_event_record(
        &self,
        table: &SpanTable,
        chain: &Vec<u64>,
        own_fields: &Vec<(String, FieldValue)>,
        meta: &EventMeta,
        timestamp: String,
    ) -> (r: Result<JsonObject, HostError>)
        requires
            table.wf(),
        ensures
            r is Ok <==> (forall|i: int|
                0 <= i < chain@.len() ==> table@.contains_key(#[trigger] chain@[i])),
            r matches Ok(rec) ==> rec.wf() && rec.as_map() == assembled(
                merged_of(table@, chain@),
                fields_map(own_fields@),
                meta.target@,
                meta.name@,
                meta.level,
                timestamp@,
            ),
            r matches Err(e) ==> e matches HostError::UnknownSpan(id) && !table@.contains_key(id)
                && exists|i: int|
                {
                    &&& 0 <= i < chain@.len()
                    &&& chain@[i] == id
                    &&& forall|j: int| 0 <= j < i ==> table@.contains_key(#[trigger] chain@[j])
                },
    {
        match table.merge_scope(chain) {
            Ok(merged) => Ok(assemble_record(merged, own_fields, meta, timestamp)),
            Err(e) => Err(e),
        }
    }

    /// An event occurred: if its severity clears the filter, merge its span
    /// chain, assemble the record with a timestamp captured now, and hand
    /// it to the output.  Below the threshold no work happens at all.  `Ok(true)`
    /// means a record went out, `Ok(false)` that the filter rejected the
    /// event; the error means the chain named a span without a store.
    pub fn on_event(
        &self,
        table: &SpanTable,
        chain: &Vec<u64>,
        own_fields: &Vec<(String, FieldValue)>,
        meta: &EventMeta,
    ) -> (r: Result<bool, HostError>)
        requires
            table.wf(),
        ensures
            match r {
                Ok(true) => admits(self.max_level, meta.level) && forall|i: int|
                    0 <= i < chain@.len() ==> table@.contains_key(#[trigger] chain@[i]),
                Ok(false) => !admits(self.max_level, meta.level),
                Err(e) => admits(self.max_level, meta.level) && (e matches HostError::UnknownSpan(
                    id,
                ) && !table@.contains_key(id) && exists|i: int|
                    {
                        &&& 0 <= i < chain@.len()
                        &&& chain@[i] == id
                        &&& forall|j: int|
                            0 <= j < i ==> table@.contains_key(#[trigger] chain@[j])
                    }),
            },
    {
        if !self.enabled(meta.level) {
            return Ok(false);
        }
        let timestamp = format_now(&self.timestamp_format);
        match self.build_event_record(table, chain, own_fields, meta, timestamp) {
            Ok(rec) => {
                self.output.write(rec);
                Ok(true)
            },
            Err(e) => Err(e),
        }
    }
}

} // verus!
