[package]
name = "void_kit"
version = "0.1.0"
edition = "2021"
publish = false

[dependencies]
anyhow = "1"
async-trait = "0.1"
base64 = "0.22"
chrono = "0.4"
dirs = "*"
html-to-markdown-rs = "*"
ignore = "0.4"
quick-xml = { version = "*", features = ["serialize"] }
reqwest = { version = "0.12", features = ["json", "multipart"] }
rusqlite = { version = "*", features = ["bundled"] }
serde = { version = "1", features = ["derive"] }
serde_json = "1"
sha2 = "0.10"
sqlite-vec = "*"
thiserror = "*"
tokio = { version = "1", features = ["full"] }
tokio-util = "0.7"
tracing = "0.1"
unicode-normalization = "0.1"
urlencoding = "2"
uuid = { version = "1", features = ["v4"] }
zerocopy = "0.8"
