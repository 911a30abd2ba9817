[package]
name = "gg18"
version = "0.1.0"
edition = "2021"
publish = false

[dependencies]
curv-kzen = "=0.10.0"
kzen-paillier = "=0.4.3"
rust-gmp = "=0.5.0"
sha2 = "0.9"
