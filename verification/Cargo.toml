[package]
name = "binius_web_snark"
version = "0.1.0"
edition = "2021"
publish = false

[dependencies]
anyhow = "1"
binius-circuits = "*"
binius-core = "*"
binius-field = "*"
binius-hal = "*"
binius-hash = "*"
binius-math = "*"
bumpalo = "3"
bytemuck = "1"
console_error_panic_hook = "0.1"
groestl = "0.10"
hex = "0.4"
serde = { version = "1", features = ["derive"] }
serde-wasm-bindgen = "0.6"
wasm-bindgen = "0.2"
