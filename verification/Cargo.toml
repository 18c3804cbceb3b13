[package]
name = "flowsim"
version = "0.1.0"
edition = "2021"
publish = false

[dependencies]
crossbeam-channel = "0.5"
futures = "0.3"
ipnet = "2"
parking_lot = "0.12"
rand = "0.8"
tokio = { version = "1", features = ["rt-multi-thread", "macros"] }
