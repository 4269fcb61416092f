[package]
name = "token_gate"
version = "0.1.0"
edition = "2021"
publish = false

[dependencies]
hmac = "0.12"
sha2 = "0.10"
base64 = "0.22"
url = "2"
worker = "*"
js-sys = "*"
wasm-bindgen = "*"
console_error_panic_hook = "*"
