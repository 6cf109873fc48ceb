[package]
name = "hls_stream"
version = "0.1.0"
edition = "2021"
publish = false

[dependencies]
rangemap = "*"
reqwest = { version = "*", default-features = false, features = ["blocking"] }
symphonia = "*"
