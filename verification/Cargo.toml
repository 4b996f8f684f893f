[package]
name = "debugger_sh"
version = "0.3.15"
edition = "2021"
publish = false

[dependencies]
anyhow = "1"
async-trait = "0.1"
console_error_panic_hook = "0.1"
flate2 = "1"
gimli = "=0.34.0"
js-sys = "0.3"
serde = { version = "1", features = ["derive"] }
serde_bytes = "0.11"
serde_json = "1"
serde-wasm-bindgen = "0.6"
tar = "0.4"
wasm-bindgen = "0.2"
wasm-bindgen-futures = "0.4"
wasm-encoder = { version = "=0.263.0", features = ["wasmparser"] }
wasmparser = "=0.263.0"
web-sys = { version = "0.3", features = ["DedicatedWorkerGlobalScope", "Event", "EventTarget", "MessageEvent", "Response", "Worker", "WorkerGlobalScope", "console"] }
