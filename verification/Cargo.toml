[package]
name = "tucano_domain"
version = "0.1.0"
edition = "2021"
publish = false

[dependencies]
serde = { version = "1", features = ["derive"] }
serde_json = "1"
roxmltree = "0.20"
tracing = "0.1"
