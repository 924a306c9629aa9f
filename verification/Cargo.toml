[package]
name = "palette_hub"
version = "0.1.0"
edition = "2021"
publish = false

[dependencies]
rosc = "*"
serde = { version = "1", features = ["derive"] }
serde_json = "1"
log = "0.4"
simple-error = "0.2"
simple_logger = "*"
derive_more = "0.99"
websocket = { version = "0.26", default-features = false, features = ["sync"] }
yew = "0.19"
yew-agent = "0.1"
wasm-bindgen = "0.2"
wasm-bindgen-futures = "0.4"
wasm-logger = "0.2"
reqwasm = "0.5"
futures = "0.3"
