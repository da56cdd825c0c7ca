[package]
name = "scraper2"
version = "0.1.0"
edition = "2021"
publish = false

[dependencies]
serde_json = "1"
chrono = "0.4"
anyhow = "1"
tokio = { version = "1", features = ["full"] }
futures = "0.3"
reqwest = { version = "0.11", default-features = false, features = ["json", "cookies", "rustls-tls"] }
clap = { version = "4", features = ["derive"] }
dialoguer = "0.11"
colored = "2"
indicatif = "0.17"
log = "0.4"
env_logger = "0.10"
