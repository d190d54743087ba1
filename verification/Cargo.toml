[package]
name = "kozue"
version = "0.1.0"
edition = "2021"
publish = false

[dependencies]
ariadne = "0.4"
indexmap = "2"
serde = { version = "1", features = ["derive"] }
serde_json = "1"
tiny-skia = "0.11"
tokio = { version = "1", features = ["io-std", "macros", "rt-multi-thread", "sync"] }
tower-lsp = "0.20"
ttf-parser = "*"
unicode-width = "0.2"
wasm-bindgen = "0.2"
