[package]
name = "rustport"
version = "0.1.0"
edition = "2021"
publish = false

[dependencies]
rand = "0.8"
serde = { version = "1", features = ["derive"] }
rayon = "1"
futures = "0.3"
bytemuck = "1"
wasm-bindgen = "0.2"
serde-wasm-bindgen = "*"
js-sys = "0.3"
web-sys = { version = "0.3", features = ["console", "WorkerGlobalScope"] }
console_error_panic_hook = "0.1"
ocl = "*"
wgpu = "*"
