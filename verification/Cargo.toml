[package]
name = "kbzone"
version = "0.1.0"
edition = "2021"
publish = false

[dependencies]
uuid = { version = "=1.29.0", features = ["v4"] }
chrono = "=0.4.45"
stop-words = "=0.10.1"
serde = { version = "=1.0.229", features = ["derive"] }
serde_json = "=1.0.154"
serde_yaml = "=0.9.34"
clap = { version = "=4.6.7", features = ["derive"] }
rusqlite = { version = "=0.41.1", features = ["bundled"] }
sqlite-vec = "=0.1.9"
ureq = "=2.12.1"
thiserror = "=2.0.21"
fastembed = "*"

[dev-dependencies]
tempfile = "=3.27.0"
