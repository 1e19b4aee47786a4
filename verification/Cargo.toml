[package]
name = "regexgen"
version = "0.1.0"
edition = "2021"
publish = false

[dependencies]
regex = "1"
serde = { version = "1", features = ["derive"] }
serde_json = "1"
wasm-bindgen = "0.2"
web-sys = { version = "0.3", features = ["console", "Storage", "Window"] }
js-sys = "0.3"
serde-wasm-bindgen = "0.6"
