[package]
name = "simd_grep"
version = "0.1.0"
edition = "2021"
publish = false

[dependencies]
bitflags = "2"
memchr = "2"

[dev-dependencies]
rand = "0.8"
