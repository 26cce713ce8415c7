[package]
name = "orderbook_engine"
version = "0.1.0"
edition = "2021"
publish = false

[dependencies]
dashmap = "6"
parking_lot = "0.12"
serde = { version = "1", features = ["derive"] }
tokio = { version = "1", features = ["macros", "rt-multi-thread", "sync", "signal"] }
tracing = "0.1"
tracing-subscriber = "0.3"
