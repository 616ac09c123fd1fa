[package]
name = "core_blake3"
version = "0.1.0"
edition = "2021"
publish = false

[dependencies]
blake3 = { version = "1", features = ["rayon"] }
rayon = "1"
libc = "0.2"
