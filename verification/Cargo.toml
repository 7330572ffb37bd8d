[package]
name = "seatunnel"
version = "0.1.0"
edition = "2021"
publish = false

[dependencies]
serde_json = "1"
chrono = "0.4"
chrono-tz = "0.10"
hex = "0.4"
uuid = { version = "1", features = ["v4"] }
proc-macro2 = "1"
quote = "1"
syn = { version = "2", features = ["full"] }
anyhow = "1"
clap = { version = "4", features = ["derive", "env"] }
serde = { version = "1", features = ["derive"] }
serde_yaml = "0.9"
tokio = { version = "1", features = ["full"] }
tokio-util = "0.7"
futures = "0.3"
tracing = "0.1"
tracing-subscriber = { version = "0.3", features = ["env-filter", "chrono"] }
parking_lot = "0.12"
sysinfo = "0.32"
object_store = { version = "0.11", features = ["aws"] }
openraft = { version = "0.9", features = ["serde", "storage-v2"] }
