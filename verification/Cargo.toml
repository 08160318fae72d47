[package]
name = "chatgpt_bot"
version = "0.1.0"
edition = "2021"
publish = false

[dependencies]
axum = { version = "0.6", features = ["ws", "headers"] }
headers = "0.3"
tokio = { version = "1", features = ["full"] }
tower-http = { version = "0.4", features = ["trace"] }
tracing = "0.1"
tracing-subscriber = { version = "0.3", features = ["env-filter"] }
serde = { version = "1", features = ["derive"] }
serde_json = "1"
thiserror = "1"
once_cell = "1"
rand = "0.8"
ratelimit = "0.5"
curl = "0.4"
config = { version = "0.13", default-features = false, features = ["toml"] }
