[package]
name = "bullmq_rust"
version = "0.1.0"
edition = "2021"
publish = false

[dependencies]
chrono = "*"
redis = { version = "*", features = ["tokio-comp", "connection-manager"] }
tokio = { version = "*", features = ["full"] }
dotenv = "*"
async-trait = "*"
serde = { version = "*", features = ["derive"] }
serde_json = "*"
