[package]
name = "lay_simulator_blueqat"
version = "0.1.0"
edition = "2021"
publish = false

[dependencies]
lay = "*"
cpython = "*"
tokio = { version = "1", features = ["rt", "rt-multi-thread"] }
