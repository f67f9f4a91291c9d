[package]
name = "riskr"
version = "0.1.0"
edition = "2021"
publish = false

[dependencies]
ahash = "*"
axum = "*"
bloomfilter = "*"
chrono = "*"
clap = { version = "*", features = ["derive", "env"] }
crc32fast = "*"
parking_lot = "*"
serde = { version = "*", features = ["derive"] }
serde_json = "*"
serde_yaml = "*"
tokio = { version = "*", features = ["macros", "rt-multi-thread", "signal", "net", "time", "sync"] }
tracing = "*"
tracing-subscriber = { version = "*", features = ["env-filter"] }
uuid = { version = "*", features = ["v4"] }
