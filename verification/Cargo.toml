[package]
name = "inclusion"
version = "0.1.0"
edition = "2021"
publish = false

[dependencies]
bitvec = "0.20"
frame-support = "38.2"
log = "0.4"
parity-scale-codec = { version = "2.3", features = ["derive", "bit-vec"] }
scale-info = { version = "1.0", features = ["derive", "bit-vec"] }
