[package]
name = "sss_rs"
version = "0.1.0"
edition = "2021"
publish = false

[dependencies]
blake3 = "*"
hex = "*"
rand = "0.8"
