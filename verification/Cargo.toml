[package]
name = "galileo"
version = "0.1.0"
edition = "2021"
publish = false

[dependencies]
anyhow = "1"
async-stream = "0.3"
axum-server = "0.5"
chrono = { version = "0.4", features = ["serde"] }
clap = { version = "3", features = ["derive"] }
csv-stream = "0.1"
directories = "4"
futures = "0.3"
futures-util = "0.3"
humantime = "2"
num-traits = "0.2"
pin-project-lite = "0.2"
rand = "0.8"
serde = { version = "1", features = ["derive"] }
serenity = { version = "0.11", default-features = false, features = ["builder", "cache", "client", "gateway", "http", "model", "utils", "rustls_backend"] }
tap = "1"
tokio = { version = "1", features = ["full"] }
toml = "0.7"
tonic = "0.10"
tonic-reflection = "0.10"
tonic-web = "0.10"
tower = { version = "0.4", features = ["full"] }
tower-batch = "0.2"
tower-http = { version = "0.4", features = ["cors"] }
tower-service = "0.3"
tracing = "0.1"
tracing-subscriber = { version = "0.3", features = ["env-filter"] }
url = "2"
