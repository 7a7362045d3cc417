[package]
name = "amalgam"
version = "0.1.0"
edition = "2021"
publish = false

[dependencies]
regex = "=1.13.1"
serde = { version = "=1.0.229", features = ["derive"] }
serde_json = "=1.0.154"
toml = "=1.1.8"
petgraph = "=0.8.3"
openapiv3 = "=2.2.0"
sha2 = "*"
chrono = { version = "*", default-features = false, features = ["clock", "std", "serde"] }
walkdir = "*"

[dev-dependencies]
tempfile = "*"
