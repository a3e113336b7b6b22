[package]
name = "instrument_core"
version = "0.1.0"
edition = "2021"
publish = false

[dependencies]
serde = { version = "1", features = ["derive"] }
serde_json = "1"
thiserror = "1"
tokio = { version = "1", features = ["sync", "time", "rt", "macros", "io-util"] }
toml = "0.8"
tracing = "0.1"
visa-rs = "*"
