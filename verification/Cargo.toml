[package]
name = "rtb_aggregator"
version = "0.1.0"
edition = "2021"
publish = false

[dependencies]
chrono = "0.4"
rand = "0.8"
rocket = { version = "0.5", features = ["json"] }
tokio = { version = "1", features = ["macros", "rt-multi-thread", "sync", "time"] }
rdkafka = "0.36"
reqwest = { version = "0.11", default-features = false }
serde = { version = "1", features = ["derive"] }
serde_json = "1"
thread_local = "1"
