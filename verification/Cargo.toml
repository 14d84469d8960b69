[package]
name = "ruzstd"
version = "0.1.0"
edition = "2021"
publish = false

[dependencies]
twox-hash = { version = "1.6", default-features = false }
