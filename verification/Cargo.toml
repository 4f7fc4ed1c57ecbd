[package]
name = "mission_centre_pg"
version = "0.1.0"
edition = "2021"
publish = false

[dependencies]
async-channel = "2"
keyring = "3"
rusqlite = { version = "0.32", features = ["bundled"] }
rustls = "0.23"
rustls-native-certs = "0.8"
serde = { version = "1", features = ["derive"] }
serde_json = "1"
thiserror = "2"
tokio = { version = "1", features = ["rt", "time", "macros"] }
tokio-postgres = "0.7"
tokio-postgres-rustls = "0.13"
uuid = { version = "1", features = ["v4", "serde"] }
