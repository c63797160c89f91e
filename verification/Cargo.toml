[package]
name = "pelican"
version = "0.1.0"
edition = "2021"
publish = false

[dependencies]
crc32c = "0.6"

[dev-dependencies]
hex = "0.4"
