[package]
name = "http_server"
version = "0.1.0"
edition = "2021"
publish = false

[dependencies]
anyhow = "1"
flate2 = "1"
httpdate = "1"
percent-encoding = "2"
thiserror = "*"
tokio = { version = "1", features = ["full"] }
tracing = "0.1"
