[package]
name = "peeringdb_mirror"
version = "0.1.0"
edition = "2021"
publish = false

[dependencies]
worker = { version = "*", features = ["d1"] }
serde = { version = "*", features = ["derive"] }
serde_json = "*"
wasm-bindgen = "*"
js-sys = "*"
