[package]
name = "qutex"
version = "0.2.3"
edition = "2021"
publish = false

[dependencies]
crossbeam = "0.7"
futures = "0.1"
futures-util = { version = "0.3", features = ["compat"] }
