[package]
name = "pathfinder"
version = "0.1.0"
edition = "2021"
publish = false

[dependencies]
pathfinding = "=4.16.0"
geojson = "=0.24.2"
georaster = "=0.2.0"
tiff = "=0.9.1"
serde = { version = "=1.0.229", features = ["derive"] }
serde_json = "=1.0.154"
serde-wasm-bindgen = "=0.6.5"
wasm-bindgen = "=0.2.129"
js-sys = "=0.3.106"
console_error_panic_hook = "=0.1.7"
