[package]
name = "nicebot"
version = "0.1.0"
edition = "2021"
publish = false

[dependencies]
url = "*"
percent-encoding = "*"
tokio = { version = "*", features = ["fs", "io-util", "rt"] }
tokio-util = { version = "*", features = ["compat"] }
async-std = "*"
smol = "*"
futures-lite = "*"
