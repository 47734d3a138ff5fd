[package]
name = "takumi"
version = "0.1.0"
edition = "2021"
publish = false

[dependencies]
sekkei = "=0.2.2"
indexmap = "=2.14.2"
serde = { version = "=1.0.229", features = ["derive"] }
serde_json = "=1.0.154"

[dev-dependencies]
serde_norway = "=0.9.42"
