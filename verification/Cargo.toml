[package]
name = "loadmodel"
version = "0.1.0"
edition = "2021"
publish = false

[dependencies]
humantime = "*"
clap = "*"
crossbeam = "*"
leaky-bucket = "*"
tokio = { version = "*", features = ["rt-multi-thread", "time", "macros"] }
matplotrust = "*"
