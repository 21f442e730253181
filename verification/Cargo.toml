[package]
name = "cargo_careful"
version = "0.1.0"
edition = "2021"
publish = false

[dependencies]
anyhow = "1"
rustc_version = "0.4"
tempdir = "0.3"
