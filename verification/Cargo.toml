[package]
name = "boards_count"
version = "0.1.0"
edition = "2021"
publish = false

[dependencies]
regex = "*"
serde_json = "*"
native-tls = "*"
