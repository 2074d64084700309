[package]
name = "trace_rs"
version = "0.1.0"
edition = "2021"
publish = false

[dependencies]
rand = "0.8"
itertools = "0.13"
rayon = "1"
indicatif = { version = "0.17", features = ["rayon"] }
