[package]
name = "server"
version = "0.1.0"
edition = "2021"
publish = false

[dependencies]
rand = "=0.9.5"
serde = { version = "=1.0.229", features = ["derive"] }
serde_json = "=1.0.154"
tokio = { version = "=1.54.1", features = ["rt-multi-thread", "macros", "sync", "net"] }
axum = { version = "=0.8.9", features = ["ws"] }
futures = "=0.3.34"
tower-http = { version = "=0.6.11", features = ["cors"] }
shuttle-axum = "*"
shuttle-runtime = "*"
