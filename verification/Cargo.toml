[package]
name = "archiver"
version = "0.1.0"
edition = "2021"
publish = false

[dependencies]
frame-support = "=49.0.0"
frame-system = "=49.0.0"
parity-scale-codec = "=3.7.5"

[dev-dependencies]
sp-core = "=43.0.0"
sp-crypto-hashing = "=0.1.0"
