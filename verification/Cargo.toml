[package]
name = "codex_core"
version = "0.1.0"
edition = "2021"
publish = false

[dependencies]
tokio = { version = "1", features = ["rt", "time", "macros", "sync"] }
tokio-util = "0.7"
tracing = "0.1"
