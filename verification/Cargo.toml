[package]
name = "yamamva"
version = "0.9.0"
edition = "2021"
publish = false

[dependencies]
serde_json = "1"
serde_yaml = "0.9"

[dev-dependencies]
tempfile = "3"
