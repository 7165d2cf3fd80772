[package]
name = "monokl"
version = "0.1.0"
edition = "2021"
publish = false

[dependencies]
camino = { version = "=1.2.6", features = ["serde1"] }
grep-regex = "=0.1.14"
ignore = "=0.4.34"
regex = "=1.13.1"
serde = { version = "=1.0.229", features = ["derive"] }
thiserror = "=2.0.21"

[dev-dependencies]
serde_json = "=1.0.154"
