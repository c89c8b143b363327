[package]
name = "cluster_monitor"
version = "0.1.0"
edition = "2021"
publish = false

[dependencies]
chrono = { version = "0.4", features = ["serde"] }
itertools = "0.13"
tokio = { version = "1", features = ["rt-multi-thread", "macros", "net", "fs", "io-util", "time", "sync"] }
serde = { version = "1", features = ["derive"] }
serde_json = "1"
async-compression = { version = "0.4", features = ["tokio", "brotli"] }
clap = { version = "4", features = ["derive"] }
color-eyre = "0.6"
futures = "0.3"
signal-hook = "0.3"
signal-hook-tokio = { version = "0.3", features = ["futures-v0_3"] }
tracing = "0.1"
tracing-subscriber = "0.3"
anyhow = "1"
thiserror = "1"
