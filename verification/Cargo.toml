[package]
name = "todo_session"
version = "0.1.0"
edition = "2021"
publish = false

[dependencies]
rand = "0.8"
r2d2 = "0.8"
r2d2_redis = "0.14"
redis = "0.20"
rocket = "0.5"
serde = { version = "1", features = ["derive"] }
serde_json = "1"
