[package]
name = "flapjack"
version = "0.1.0"
edition = "2021"
publish = false

[dependencies]
serde = { version = "=1.0.229", features = ["derive"] }
serde_json = "=1.0.154"
indexmap = "=2.14.2"
tantivy = "=0.22.1"
sysinfo = "=0.30.13"
tokio = { version = "=1.54.1", features = ["rt", "sync", "time", "macros"] }
dashmap = "6"
