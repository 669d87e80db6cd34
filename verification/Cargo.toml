[package]
name = "roc_desk_http"
version = "0.1.0"
edition = "2021"
publish = false

[dependencies]
base64 = "0.22"
chrono = "0.4"
uuid = { version = "1", features = ["v4"] }
serde_json = "1"
serde_yaml = "0.9"
reqwest = { version = "0.12", default-features = false, features = ["rustls-tls", "multipart"] }
rusqlite = { version = "0.32", features = ["bundled"] }
