[package]
name = "audionautica-core"
version = "0.1.0"
edition = "2021"
publish = false

[dependencies]
blake3 = "1"
unicode-normalization = "0.1"
flate2 = "1"
rusqlite = { version = "0.32", features = ["bundled"] }
chrono = { version = "0.4", features = ["serde"] }
serde = { version = "1", features = ["derive"] }
serde_json = "1"
uuid = { version = "1", features = ["v4"] }
symphonia = { version = "0.5", features = ["aiff"] }
thiserror = "2"
tracing = "0.1"
tracing-subscriber = { version = "0.3", features = ["env-filter", "fmt"] }
