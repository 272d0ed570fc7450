[package]
name = "math_lib"
version = "0.1.0"
edition = "2021"
publish = false

[dependencies]
rust_decimal = "*"
serde = { version = "*", features = ["derive"] }
serde_json = "*"
wasm-bindgen = "*"
js-sys = "*"
web-sys = { version = "*", features = ["console"] }
serde-wasm-bindgen = "*"
console_error_panic_hook = "*"
