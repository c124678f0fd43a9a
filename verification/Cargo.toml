[package]
name = "pulse"
version = "0.1.0"
edition = "2021"
publish = false

[dependencies]
url = "=2.5.8"
http = "=1.5.0"
serde = { version = "=1.0.229", features = ["derive"] }
serde_json = "=1.0.154"
chrono = { version = "=0.4.45", default-features = false, features = ["std", "clock", "serde"] }
ulid = "=1.2.1"
thiserror = "=2.0.21"
tokio = { version = "1", features = ["rt-multi-thread", "time", "sync", "macros"] }
reqwest = { version = "0.12", default-features = false, features = ["rustls-tls"] }
rusqlite = { version = "*", features = ["bundled"] }
keyring = { version = "3", default-features = false }
tracing = "0.1"
tracing-subscriber = { version = "0.3", features = ["env-filter", "fmt"] }
log = "0.4"
