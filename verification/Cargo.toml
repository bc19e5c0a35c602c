[package]
name = "raytracer"
version = "0.1.0"
edition = "2021"
publish = false

[dependencies]
float-cmp = "*"
uuid = { version = "*", features = ["v4"] }
wasm-bindgen = "*"
wee_alloc = "*"
