[package]
name = "joint_bilateral"
version = "0.1.0"
edition = "2021"
publish = false

[dependencies]
wasm-bindgen = "0.2"
once_cell = "1"
console_error_panic_hook = "0.1"
