[package]
name = "streams_core"
version = "0.1.0"
edition = "2021"
publish = false

[dependencies]
iota-crypto = { version = "=0.23.2", default-features = false, features = ["ed25519", "x25519", "random", "sha"] }
keccak = "=0.1.6"
