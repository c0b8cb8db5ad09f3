[package]
name = "crawler_2ch"
version = "0.1.0"
edition = "2021"

[dependencies]
sha2 = "0.10"
hex = "0.4"
serde = { version = "1", features = ["derive"] }
serde_json = "1"
tokio = { version = "1", features = ["full"] }
reqwest = "0.11"
clap = { version = "3", features = ["derive"] }
log = "0.4"
env_logger = "0.9"
