[package]
name = "doc_scanner_core"
version = "0.1.0"
edition = "2021"
publish = false

[dependencies]
pdf-extract = "*"
sha2 = "*"
serde = { version = "*", features = ["derive"] }
serde_json = "*"
thiserror = "*"
anyhow = "*"
clap = { version = "*", features = ["derive"] }
tracing = "*"
tracing-subscriber = { version = "*", features = ["json", "env-filter"] }
