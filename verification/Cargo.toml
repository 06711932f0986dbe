[package]
name = "shipit"
version = "0.1.0"
edition = "2021"
publish = false

[dependencies]
serde_json = "1"
serde_yaml = "0.9"
base64 = "0.22"
percent-encoding = "2"
serde = { version = "1", features = ["derive"] }
reqwest = { version = "0.12", default-features = false, features = ["blocking", "json"] }
clap = { version = "4", features = ["derive", "env", "cargo"] }
env_logger = "0.11"
log = "0.4"
anyhow = "1"
