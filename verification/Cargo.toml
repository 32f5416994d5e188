[package]
name = "flat_combining"
version = "0.1.0"
edition = "2021"
publish = false

[dependencies]
crossbeam-utils = "0.8"
rustix = { version = "1", features = ["thread"] }
