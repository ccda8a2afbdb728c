[package]
name = "blackjack_rooms"
version = "0.1.0"
edition = "2021"
publish = false

[dependencies]
rand = "0.9"
axum = "*"
serde = { version = "1", features = ["derive"] }
serde_json = "1"
socketioxide = "*"
tokio = { version = "1", features = ["full"] }
tower-http = { version = "*", features = ["cors"] }
tracing = "0.1"
tracing-subscriber = "0.3"
