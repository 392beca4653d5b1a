[package]
name = "jsonai"
version = "0.1.0"
edition = "2021"
publish = false

[dependencies]
anyhow = "=1.0.104"
clap = { version = "=4.6.7", features = ["derive"] }
glob = "=0.3.4"
ignore = "=0.4.33"
jaq-core = "=2.2.1"
jaq-json = { version = "=1.1.3", features = ["serde_json"] }
jaq-std = "=2.1.2"
serde = { version = "=1.0.229", features = ["derive"] }
serde_json = "=1.0.151"
tantivy = "=0.26.2"
