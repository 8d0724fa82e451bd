[package]
name = "lillypad"
version = "0.1.0"
edition = "2021"
publish = false

[dependencies]
chrono = "=0.4.45"
serde = { version = "=1.0.229", features = ["derive"] }
serde_json = "=1.0.154"
reqwest = { version = "=0.12.28", default-features = false, features = ["json"] }
derive_more = { version = "=1.0.0", features = ["from"] }
leptos = { version = "0.8", features = ["ssr"] }
leptos_meta = { version = "0.8", features = ["ssr"] }
leptos_router = { version = "0.8", features = ["ssr"] }
leptos_actix = "0.8"
leptos-chartistry = "=0.2.3"
actix-web = { version = "=4.18.1", default-features = false, features = ["macros"] }
actix-files = "=0.6.10"
env_logger = "=0.11.11"
wasm-bindgen = "0.2"
console_error_panic_hook = "0.1"
