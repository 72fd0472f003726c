[package]
name = "ego_cli"
version = "0.1.0"
edition = "2021"
publish = false

[dependencies]
unicode-segmentation = "1"
unicode-width = "0.2"
crossterm = { version = "0.28", features = ["event-stream"] }
tokio = { version = "1", features = ["io-std", "io-util", "macros", "rt-multi-thread", "sync", "time"] }
futures = "0.3"
futures-util = "0.3"
serde = { version = "1", features = ["derive"] }
async-trait = "0.1"
ratatui = "0.29"
wasm-bindgen = "0.2"
js-sys = "0.3"
console_error_panic_hook = "0.1"

[dev-dependencies]
futures-executor = "0.3"
