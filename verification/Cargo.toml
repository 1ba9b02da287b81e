[package]
name = "pulau-rs"
version = "0.2.0"
edition = "2021"

[dev-dependencies]
heapless = "0.8"
