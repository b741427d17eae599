[package]
name = "chat_relay"
version = "0.1.0"
edition = "2021"
publish = false

[dependencies]
serde = { version = "*", features = ["derive"] }
serde_json = "*"
axum = { version = "*", features = ["ws"] }
tokio = { version = "*", features = ["rt-multi-thread", "macros", "sync", "net"] }
futures-util = "*"
tower-http = { version = "*", features = ["cors"] }
dotenvy = "*"
tracing = "*"
tracing-subscriber = "*"
