[package]
name = "rustia_proxy"
version = "0.1.0"
edition = "2021"
publish = false

[dependencies]
adler32 = "*"
num-bigint = "*"
bytes = "*"
tokio = { version = "*", features = ["full"] }
tokio-util = { version = "*", features = ["codec"] }
futures = "*"
anyhow = "*"
