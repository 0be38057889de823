[package]
name = "fnk0085_smart_car_backend"
version = "0.3.1"
edition = "2021"
publish = false

[dependencies]
aes-gcm = "0.10"
sha2 = "0.10"
dashmap = "6"
tokio = { version = "1", features = ["sync", "time", "rt", "rt-multi-thread", "macros", "net"] }
subtle = "2"
mime_guess = "2"
flate2 = "1"
actix-http = { version = "3", features = ["http2"] }
actix-rt = "2"
actix-server = "2"
actix-service = "2"
serde = { version = "1", features = ["derive"] }
serde_json = "1"
bytes = "1"
futures = "0.3"
include_dir = "0.7"
env_logger = "0.11"
log = "0.4"
anyhow = "1"
thiserror = "2"
parking_lot = "0.12"
