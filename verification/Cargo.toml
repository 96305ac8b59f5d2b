[package]
name = "write_session"
version = "0.1.0"
edition = "2021"
publish = false

[dependencies]
self_encryption = "*"
time = "0.1"
