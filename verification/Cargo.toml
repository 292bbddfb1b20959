[package]
name = "wasmicro"
version = "0.3.0"
edition = "2021"
publish = false

[dependencies]
bytemuck = "1"
wasm-bindgen = "0.2"
console_error_panic_hook = "0.1"
hf-hub = { version = "0.4", default-features = false, features = ["ureq"] }
