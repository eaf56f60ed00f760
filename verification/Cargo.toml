[package]
name = "ml_kem"
version = "0.1.0"
edition = "2021"
publish = false

[dependencies]
sha3 = "0.10"
rand_core = "0.9"
zeroize = "1"

[dev-dependencies]
rand_chacha = "0.9"
