[package]
name = "color_lsp"
version = "0.1.0"
edition = "2021"
publish = false

[dependencies]
csscolorparser = { version = "=0.7.2", features = ["lab"] }
tokio = { version = "=1.54.1", features = ["io-std", "macros", "rt-multi-thread"] }
tower-lsp = "=0.20.0"
