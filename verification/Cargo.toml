[package]
name = "company_sync"
version = "0.1.0"
edition = "2021"
publish = false

[dependencies]
base64 = "=0.22.1"
chrono = { version = "=0.4.45", features = ["serde"] }
codee = { version = "0.2", features = ["json_serde"] }
console_error_panic_hook = "=0.1.7"
console_log = "=1.1.0"
futures = "=0.3.34"
leptos = { version = "=0.6.15", features = ["csr"] }
leptos_router = { version = "=0.6.15", features = ["csr"] }
leptos-use = "0.13"
log = "=0.4.34"
postgrest = { version = "=1.6.0", default-features = false }
reqwest = { version = "=0.11.27", default-features = false }
serde = { version = "=1.0.229", features = ["derive"] }
serde_json = "=1.0.154"
wasm-bindgen = "=0.2.129"
web-sys = { version = "=0.3.106", features = ["Storage", "Window", "MouseEvent", "HtmlDialogElement", "HtmlInputElement"] }
