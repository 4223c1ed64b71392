[package]
name = "hurl_wasm"
version = "0.1.0"
edition = "2021"
publish = false

[dependencies]
url = "2"
web-sys = { version = "0.3", features = ["Window", "Request", "RequestInit", "RequestMode", "Response", "Headers", "AbortController", "AbortSignal", "UrlSearchParams"] }
wasm-bindgen = "0.2"
wasm-bindgen-futures = "0.4"
futures = "0.3"
chrono = { version = "0.4", default-features = false, features = ["clock"] }
web-time = "1"
console_error_panic_hook = "0.1"
