[package]
name = "esindex_exporter"
version = "0.1.0"
edition = "2021"
publish = false

[dependencies]
anyhow = "=1.0.104"
base64 = "=0.22.1"
clap = { version = "=4.6.7", features = ["derive", "env"] }
env_logger = "=0.11.11"
log = "=0.4.34"
prometheus_exporter = "=0.8.5"
regex = "=1.13.1"
reqwest = { version = "=0.12.28", features = ["blocking", "json"] }
serde = { version = "=1.0.229", features = ["derive"] }
serde_json = "=1.0.154"
serde_yaml = "=0.9.34"
