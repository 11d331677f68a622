[package]
name = "formula"
version = "0.1.0"
edition = "2021"

[dependencies]
js-sys = "0.3"
nom = "7"
serde = { version = "1", features = ["derive"] }
serde_json = "1"
wasm-bindgen = "0.2"
