[package]
name = "firescan"
version = "0.1.0"
edition = "2021"
publish = false

[dependencies]
anyhow = "1"
base64 = "0.21"
chrono = "0.4"
directories = "5"
env_logger = "0.10"
fern = "0.6"
futures = "0.3"
log = "0.4"
once_cell = "1"
regex = "1"
reqwest = { version = "0.11", default-features = false, features = ["rustls-tls"] }
scraper = "0.18"
serde = { version = "1", features = ["derive"] }
serde_json = "1"
sqlx = { version = "0.7", default-features = false, features = ["runtime-tokio", "sqlite", "migrate"] }
tokio = { version = "1", features = ["full"] }
urlencoding = "2"
uuid = { version = "1", features = ["v4"] }
walkdir = "2"
zip = { version = "0.6", default-features = false, features = ["deflate"] }
