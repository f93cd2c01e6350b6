[package]
name = "rag_system"
version = "0.1.0"
edition = "2021"
publish = false

[dependencies]
anyhow = "1"
axum = "0.7"
dotenv = "0.15"
env_logger = "0.11"
headers = "0.4"
log = "0.4"
pdf-extract = "*"
regex = "1"
reqwest = { version = "0.12", features = ["json"] }
serde = { version = "1", features = ["derive"] }
tempfile = "3"
tiktoken-rs = "*"
tokio = { version = "1", features = ["full"] }
tower-http = { version = "0.6", features = ["cors"] }
unicode-segmentation = "1"
uuid = { version = "1", features = ["v4"] }
