[package]
name = "orchestra_core"
version = "0.1.0"
edition = "2021"
publish = false

[dependencies]
sha2 = "=0.10.9"
serde = { version = "=1.0.229", features = ["derive"] }
serde_json = "=1.0.154"
serde_json_canonicalizer = "=0.4.1"
serde_yaml_ng = "=0.10.0"
minijinja = { version = "=3.0.5", features = ["serde"] }
