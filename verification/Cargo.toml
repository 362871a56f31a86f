[package]
name = "bucket_hub"
version = "0.1.0"
edition = "2021"
publish = false

[dependencies]
async-stream = "0.3"
axum = "0.8"
chrono = "0.4"
futures = "0.3"
futures-util = "0.3"
memorable-ids = "*"
serde = { version = "1", features = ["derive"] }
serde_json = "1"
sfv = "*"
sha2 = "0.10"
tokio = { version = "1", features = ["full"] }
tower-http = { version = "0.6", features = ["cors", "fs", "set-header"] }
tracing = "0.1"
tracing-subscriber = { version = "0.3", features = ["env-filter"] }
uuid = { version = "1", features = ["v4"] }
