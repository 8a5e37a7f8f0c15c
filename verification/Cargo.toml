[package]
name = "copilot_byok"
version = "0.1.0"
edition = "2021"
publish = false

[dependencies]
serde = { version = "1", features = ["derive"] }
serde_json = "1"
json5 = "0.4"
url = "2"
uuid = { version = "1", features = ["v4"] }
sha2 = "0.10"
reqwest = { version = "0.12", default-features = false, features = ["json", "stream"] }
axum = "0.7"
tokio = { version = "1", features = ["full"] }
futures = "0.3"
bytes = "1"
dirs = "5"
log = "0.4"
once_cell = "1"
