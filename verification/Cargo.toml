[package]
name = "knowledge_base"
version = "0.1.0"
edition = "2021"
publish = false

[dependencies]
colored = "2"
csv = "1"
fuzzy-matcher = "0.3"
meval = "0.2"
rustyline = "*"
serde = { version = "1", features = ["derive"] }
serde_json = "1"
