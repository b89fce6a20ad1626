[package]
name = "ixmati"
version = "0.1.0"
edition = "2021"
publish = false

[dependencies]
sha2 = "*"
serde = { version = "*", features = ["derive"] }
serde_json = "*"
toml = "*"
rusqlite = { version = "*", features = ["bundled"] }
redb = "*"
tokio = { version = "*", features = ["full"] }
axum = "*"
rumqttc = "*"
uuid = { version = "*", features = ["v4"] }
chrono = "*"
tracing = "*"
tracing-subscriber = { version = "*", features = ["env-filter", "json"] }
thiserror = "*"
