[package]
name = "paldex"
version = "0.1.0"
edition = "2021"
publish = false

[dependencies]
png = "=0.18.1"
base64 = "=0.23.1"
sha2 = "=0.11.1"
serde = { version = "=1.0.229", features = ["derive"] }
serde_json = "=1.0.154"
dirs = "=7.0.0"
