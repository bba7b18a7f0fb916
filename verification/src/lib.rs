//! Structured JSON logging with fields merged from enclosing spans.
//!
//! Spans are nested units of work that carry key/value context; events are
//! point-in-time log records.  This library turns each event into one flat
//! JSON object holding the fields of every enclosing span (innermost value
//! winning on a key collision), the event's own fields, and reserved
//! metadata keys (`target`, `name`, `log_level`, `timestamp`), and hands the
//! finished record to a pluggable output.
//!
//! The host instrumentation runtime is expected to call [`layer::JsonLayer`]'s
//! callbacks with explicit span identifiers and an explicit, root-first span
//! chain per event; thread handling and the runtime's span registry stay with
//! the host.

pub mod encode;
pub mod grammar;
pub mod laws;
pub mod layer;
pub mod level;
pub mod num;
pub mod object;
pub mod pairs;
pub mod table;
pub mod value;

pub use layer::{EventMeta, JsonLayer, JsonOutput, JsonStdout, TimestampFormat};
pub use level::{Level, LevelFilter};
pub use object::JsonObject;
pub use table::{HostError, SpanTable};
pub use value::{FieldValue, JsonValue, ValueView};
