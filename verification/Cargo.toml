[package]
name = "verse_lsp"
version = "0.1.0"
edition = "2021"
publish = false

[dependencies]
regex = "=1.13.1"
tokio = { version = "=1.54.1", features = ["io-std", "macros", "rt-multi-thread", "sync"] }
tower-lsp-server = "=0.23.0"
tracing-subscriber = "=0.3.23"
