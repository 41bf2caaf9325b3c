[package]
name = "tskv_jobs"
version = "0.1.0"
edition = "2021"
publish = false

[dependencies]
lru = "0.12"
parking_lot = "0.12"
tokio = { version = "1", default-features = false, features = ["rt", "rt-multi-thread", "sync", "time"] }
