[package]
name = "rsl-linter"
version = "0.1.0"
edition = "2021"
publish = false

[dependencies]
regex = "1"
encoding_rs = "0.8"
clap = { version = "4", features = ["derive"] }
anyhow = "1"
