[package]
name = "cdn_backend"
version = "0.1.0"
edition = "2021"
publish = false

[dependencies]
actix-web = "4"
actix-cors = "0.7"
actix-multipart = "0.6"
futures-util = "0.3"
chrono = "0.4"
csv = "1"
env_logger = "0.11"
log = "0.4"
mime_guess = "2"
priority-queue = "2"
rand = "0.8"
regex = "1"
serde = { version = "1", features = ["derive"] }
serde_json = "1"
sha2 = "0.10"
tokio = { version = "1", features = ["rt-multi-thread", "macros", "sync", "time"] }
uuid = { version = "1", features = ["v4", "serde"] }
