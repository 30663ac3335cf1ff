[package]
name = "paddledesk"
version = "0.1.0"
edition = "2021"
publish = false

[dependencies]
scraper = "0.29"
sys-locale = "0.3"
serde = { version = "1", features = ["derive"] }
serde_json = "1"
thiserror = "2"
anyhow = "1"
async-trait = "0.1"
chrono = "0.4"
uuid = { version = "1", features = ["v4"] }
tokio = { version = "1", features = ["rt-multi-thread", "macros", "sync", "time"] }
reqwest = { version = "0.12", default-features = false, features = ["multipart", "json", "rustls-tls"] }
rusqlite = { version = "0.32", features = ["bundled"] }
lopdf = "0.34"
image = { version = "0.25", default-features = false, features = ["png"] }
keyring = { version = "3", default-features = false, features = ["windows-native"] }
