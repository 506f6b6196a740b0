[package]
name = "starve_not"
version = "0.1.0"
edition = "2021"
publish = false

[dependencies]
bon = "3"
parking_lot = "0.12"
smallvec = "1"
tokio = { version = "1", features = ["macros", "rt", "rt-multi-thread", "sync", "time"] }
tracing = "0.1"
