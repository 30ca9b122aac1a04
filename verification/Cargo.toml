[package]
name = "crc32c-fast"
version = "0.1.0"
edition = "2021"
publish = false

[dev-dependencies]
crc32c = "*"
