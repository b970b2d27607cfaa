[package]
name = "webcasting_wasm"
version = "0.1.0"
edition = "2021"

[dependencies]
js-sys = "*"
wasm-bindgen = "*"
