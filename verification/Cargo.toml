[package]
name = "futures_orchestra"
version = "0.1.0"
edition = "2021"
publish = false

[dependencies]
fibre = "*"
futures = "*"
parking_lot = "*"
thiserror = "*"
tokio = { version = "*", features = ["rt", "rt-multi-thread", "sync", "time", "macros"] }
tracing = "*"
