[package]
name = "resp_kv"
version = "0.1.0"
edition = "2021"
publish = false

[dependencies]
lazy_static = "1"
thiserror = "1"
tokio = { version = "1", features = ["io-util", "macros", "net", "rt-multi-thread", "signal", "sync"] }
