[package]
name = "parity_store"
version = "0.1.0"
edition = "2021"
publish = false

[dependencies]
io-uring = "*"
libc = "*"
tokio = { version = "*", default-features = false, features = ["sync"] }
