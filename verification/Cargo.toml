[package]
name = "layer_compositor"
version = "0.1.0"
edition = "2021"
publish = false

[dependencies]
raqote = { version = "0.8", default-features = false }
