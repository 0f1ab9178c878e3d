[package]
name = "lord_of_the_files"
version = "0.1.0"
edition = "2021"
publish = false

[dependencies]
regex = "=1.13.1"
url = "=2.5.8"
serde = { version = "=1.0.229", features = ["derive"] }
serde_json = "=1.0.154"
rusqlite = { version = "=0.32.1", features = ["bundled"] }
walkdir = "=2.5.0"
uuid = { version = "=1.29.0", features = ["v4"] }
chrono = "=0.4.45"
log = "=0.4.35"
keyring = "=3.6.3"
tokio = { version = "=1.54.1", features = ["time", "macros", "rt-multi-thread"] }
tokio-util = "=0.7.20"
futures = "=0.3.34"
aisdk = { version = "=0.5.2", features = ["openai", "openaicompatible"] }
