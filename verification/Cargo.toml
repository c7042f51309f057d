[package]
name = "netwatch"
version = "0.1.0"
edition = "2021"
publish = false

[dependencies]
dirs = "5"
nix = { version = "0.29", features = ["net", "poll", "socket", "uio"] }
ring = "0.17"
serde = { version = "1", features = ["derive"] }
serde_json = "1"
tracing = "0.1"
tracing-appender = "0.2"
tracing-subscriber = { version = "0.3", features = ["env-filter"] }
