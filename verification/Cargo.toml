[package]
name = "tracing_json_span_fields"
version = "0.1.0"
edition = "2021"
publish = false

[dependencies]
serde_json = "1"
time = { version = "0.3", features = ["formatting", "parsing"] }
tracing = "0.1"
tracing-subscriber = { version = "0.3", features = ["registry", "fmt"] }
