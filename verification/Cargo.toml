[package]
name = "gts_id"
version = "0.1.0"
edition = "2021"
publish = false

[dependencies]
uuid = { version = "=1.29.0", features = ["v5"] }
serde = { version = "=1.0.229", features = ["derive"] }
serde_json = "=1.0.154"
schemars = "=1.2.3"
thiserror = "=2.0.21"
jsonschema = { version = "*", default-features = false }
