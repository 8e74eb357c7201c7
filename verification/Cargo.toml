[package]
name = "ci_diff"
version = "0.1.0"
edition = "2021"
publish = false

[dependencies]
anyhow = "1"
tempfile = "3"
tracing = "0.1"
