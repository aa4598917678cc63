[package]
name = "rexp"
version = "0.1.0"
edition = "2021"
publish = false

[dependencies]
rustc_apfloat = "=0.2.3"
time = { version = "=0.3.55", features = ["formatting"] }
wasm-bindgen = "=0.2.129"
