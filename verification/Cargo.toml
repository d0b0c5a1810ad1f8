[package]
name = "frame_contrib"
version = "0.1.0"
edition = "2021"
publish = false

[dependencies]
parity-scale-codec = "3"
sp-arithmetic = "*"
sp-crypto-hashing = "*"
