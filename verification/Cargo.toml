[package]
name = "alterbot"
version = "0.1.0"
edition = "2021"
publish = false

[dependencies]
anyhow = "1"
axum = "0.8"
chrono = "0.4"
craftping = { version = "0.7", features = ["async-tokio"] }
dashmap = "6"
futures = "0.3"
poise = "0.6"
reqwest = { version = "0.12", default-features = false, features = ["rustls-tls"] }
sea-orm = { version = "2", default-features = false, features = ["macros", "with-chrono", "with-uuid"] }
serde = { version = "1", features = ["derive"] }
serde_json = "1"
serenity = "0.12"
thiserror = "2"
tokio = { version = "1", features = ["full"] }
toml = "0.8"
tracing = "0.1"
tracing-subscriber = { version = "0.3", features = ["env-filter", "chrono"] }
url = "2"
uuid = { version = "1", features = ["v4"] }
