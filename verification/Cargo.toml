[package]
name = "uiobot"
version = "0.1.0"
edition = "2021"
publish = false

[dependencies]
scraper = "=0.27.0"
anyhow = "=1.0.104"
async-trait = "=0.1.92"
axum = "=0.8.9"
chrono = "=0.4.45"
clap = { version = "=4.6.7", features = ["derive", "env"] }
dotenvy = "=0.15.7"
libsql = "=0.9.30"
reqwest = { version = "=0.12.28", default-features = false, features = ["rustls-tls", "json"] }
serde = { version = "=1.0.229", features = ["derive"] }
serde_json = "=1.0.151"
tokio = { version = "=1.53.2", features = ["full"] }
tower-http = { version = "=0.7.1", features = ["auth"] }
tracing = "=0.1.44"
tracing-subscriber = "=0.3.23"
