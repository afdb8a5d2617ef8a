[package]
name = "snippet_telemetry"
version = "0.1.0"
edition = "2021"
publish = false

[dependencies]
similar = "2"
chrono = "0.4"
serde = { version = "1", features = ["derive"] }
serde_json = "1"
tokio = { version = "1", features = ["fs", "io-util", "rt-multi-thread", "macros", "sync"] }
tracing = "0.1"
tracing-subscriber = "0.3"
tracing-appender = "0.2"
home = "0.5"
