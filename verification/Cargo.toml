[package]
name = "mdbook_markmap"
version = "0.1.0"
edition = "2021"
publish = false

[dependencies]
base64 = "0.21"
clap = { version = "4", features = ["derive"] }
mdbook = "0.4"
serde_json = "1"
tempfile = "3"
tracing = "0.1"
tracing-subscriber = "0.3"
