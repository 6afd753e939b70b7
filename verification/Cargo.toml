[package]
name = "exchange_rates"
version = "0.1.0"
edition = "2021"
publish = false

[dependencies]
anyhow = "*"
chrono = "*"
chrono-tz = "*"
log = "*"
poem = "*"
poem-openapi = { version = "*", features = ["chrono"] }
pretty_env_logger = "*"
reqwest = { version = "*", default-features = false }
serde = { version = "*", features = ["derive"] }
tokio = { version = "*", features = ["full"] }
