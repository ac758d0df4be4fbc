[package]
name = "linkpad_core"
version = "0.1.0"
edition = "2021"
publish = false

[dependencies]
serde_yaml = "0.9"
base64 = "0.22"
percent-encoding = "2"
url = "2"
sha2 = "0.10"
flate2 = "1"
chrono = "0.4"
serde = { version = "1", features = ["derive"] }
serde_json = "1"
reqwest = { version = "0.12", default-features = false, features = ["blocking"] }
dirs = "*"
