[package]
name = "yotion"
version = "0.1.0"
edition = "2021"
publish = false

[dependencies]
chrono = "0.4"
serde = { version = "1", features = ["derive"] }
anyhow = "1"
rusqlite = { version = "*", features = ["bundled"] }
dirs = "*"

[dev-dependencies]
base64 = "*"
