[package]
name = "externref"
version = "0.1.0"
edition = "2021"
publish = false

[dependencies]
walrus = "*"
anyhow = "*"
