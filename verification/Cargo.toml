[package]
name = "xorfilter"
version = "0.1.0"
edition = "2021"
publish = false

[dependencies]
mkit = "*"

[dev-dependencies]
rand = { version = "0.7", features = ["small_rng"] }
