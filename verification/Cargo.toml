[package]
name = "shaderconv"
version = "0.1.0"
edition = "2021"
publish = false

[dependencies]
naga = { version = "=0.14.2", features = ["glsl-in", "spv-out", "validate"] }
