[package]
name = "zkstate"
version = "0.1.0"
edition = "2021"
publish = false

[dependencies]
sha2 = "0.10"
sled = "0.34"
base64 = "0.22"
hex = "0.4"
bincode = "1"
serde = { version = "1", features = ["derive"] }
serde_json = "1"
reqwest = { version = "0.12", default-features = false, features = ["json"] }
tokio = { version = "1", features = ["rt-multi-thread", "macros", "sync", "time"] }
axum = "0.8"
tower-http = { version = "0.6", features = ["cors"] }
