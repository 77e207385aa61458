[package]
name = "lynn_sundial"
version = "0.1.0"
edition = "2021"
publish = false

[dependencies]
chrono = "0.4"
cron = "*"
crossbeam-deque = "0.8"
tokio = { version = "1", features = ["rt", "rt-multi-thread", "sync", "time"] }
