[package]
name = "stayputnik"
version = "0.1.0"
edition = "2021"
publish = false

[dependencies]
prost = "0.14"
tokio = { version = "1", features = ["net", "io-util", "sync", "rt", "rt-multi-thread", "macros"] }
tokio-stream = { version = "0.1", features = ["sync"] }
futures-core = "0.3"
thiserror = "2"
