[package]
name = "emvision"
version = "0.1.0"
edition = "2021"
publish = false

[dependencies]
clap = "=2.34.0"
image = { version = "=0.24.9", default-features = false, features = ["png", "jpeg", "gif"] }
rand = "=0.7.3"
serde = { version = "=1.0.229", features = ["derive"] }
serde-wasm-bindgen = "=0.6.5"
wasm-bindgen = "=0.2.129"
