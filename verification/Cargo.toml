[package]
name = "ore_rs"
version = "0.1.0"
edition = "2021"
publish = false

[dependencies]
aes = "*"
rand = "*"

[dev-dependencies]
ore-encoding-rs = "*"
