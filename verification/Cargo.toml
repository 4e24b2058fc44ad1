[package]
name = "kafka_toy"
version = "0.2.0"
edition = "2021"
publish = false

[dependencies]
anyhow = "*"
clap = { version = "*", features = ["derive"] }
dashmap = "*"
futures = "*"
jq-rs = { version = "*", features = ["bundled"] }
rdkafka = { version = "*", features = ["tokio"] }
termion = "*"
tokio = { version = "*", features = ["rt-multi-thread", "macros", "sync", "time"] }
tui = { version = "*", features = ["termion"], default-features = false }
