[package]
name = "responses_stream"
version = "0.1.0"
edition = "2021"
publish = false

[dependencies]
async-trait = "0.1"
axum = { version = "0.8", features = ["ws"] }
bytes = "1"
chrono = "0.4"
futures-util = "0.3"
openai-protocol = "=1.7.0"
serde_json = "1"
data-connector = "*"
smg-mcp = "*"
tokio = { version = "1", features = ["full"] }
tracing = "0.1"
uuid = { version = "1", features = ["v4", "v7"] }
validator = { version = "0.20", features = ["derive"] }
