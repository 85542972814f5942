[package]
name = "cab"
version = "0.1.0"
edition = "2021"
publish = false

[dependencies]
flate2 = "1"
lzxd = "0.2"
time = "0.3"

[dev-dependencies]
lipsum = "0.9"
rand = { version = "0.8", features = ["small_rng"] }
