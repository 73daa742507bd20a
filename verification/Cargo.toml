[package]
name = "rdp_codec"
version = "0.1.0"
edition = "2021"
publish = false

[dependencies]
ironrdp-core = { version = "=0.3.1", features = ["std"] }
