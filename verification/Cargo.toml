[package]
name = "c2_tracker"
version = "0.1.0"
edition = "2021"
publish = false

[dependencies]
serde_json = "1"
serde = { version = "1", features = ["derive"] }
chrono = "0.4"
sha1 = "0.10"
hex = "0.4"
base64 = "0.22"
rand = "0.8"
anyhow = "1"
rusqlite = { version = "0.31", features = ["bundled"] }
r2d2 = "0.8"
r2d2_sqlite = "0.24"
axum = "0.7"
tokio = { version = "1", features = ["full"] }
tokio-util = "0.7"
tower-http = { version = "0.5", features = ["trace"] }
tracing = "0.1"
notify = "6"
walkdir = "2"
dirs = "5"
