[package]
name = "simulator"
version = "0.1.0"
edition = "2021"
publish = false

[dependencies]
rand = "0.8"
tokio = { version = "1", features = ["rt-multi-thread", "net", "io-util", "sync", "time", "signal", "macros"] }
