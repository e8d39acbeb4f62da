[package]
name = "tracing-rolling-file-inc"
version = "0.1.0"
edition = "2021"
publish = false

[dependencies]
chrono = "0.4"
regex = "1"
thiserror = "1"

[dev-dependencies]
tempfile = "3"
