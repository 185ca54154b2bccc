[package]
name = "fastcdc_alt"
version = "0.1.0"
edition = "2021"
publish = false

[dependencies]
tokio = { version = "*", default-features = false, features = ["io-util"] }
tokio-stream = "*"
async-stream = "*"
futures = "*"

[dev-dependencies]
md-5 = "*"
