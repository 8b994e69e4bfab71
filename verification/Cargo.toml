[package]
name = "packetsmith"
version = "0.1.0"
edition = "2021"
publish = false

[dependencies]
url = "=2.5.8"
serde_json = "=1.0.154"
uuid = { version = "=1.29.0", features = ["v4", "serde"] }
chrono = { version = "=0.4.45", features = ["serde"] }
getrandom = "=0.3.4"
serde = { version = "=1.0.229", features = ["derive"] }
serde_yaml = "=0.9.34"
thiserror = "=2.0.21"
rusqlite = { version = "=0.41.1", features = ["bundled"] }
zeroize = "=1.9.1"
reqwest = { version = "0.12", default-features = false, features = ["rustls-tls", "json"] }
tokio = { version = "1", features = ["rt-multi-thread", "macros", "sync", "time"] }
keyring = "3"
tracing = "0.1"
tracing-subscriber = "0.3"
anyhow = "1"
async-trait = "0.1"
