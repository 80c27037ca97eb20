[package]
name = "b64_encoder"
version = "0.1.0"
edition = "2021"
publish = false

[dependencies]
wasm-bindgen = "*"

[dev-dependencies]
base64 = "*"
