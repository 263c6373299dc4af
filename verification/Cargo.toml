[package]
name = "rustcoin_consensus"
version = "0.1.0"
edition = "2021"
publish = false

[dependencies]
sha2 = "*"
rkv = "*"

[dev-dependencies]
tempfile = "*"
