[package]
name = "prexcore_payment_processor"
version = "0.1.0"
edition = "2021"
publish = false

[dependencies]
rust_decimal = "1"
serde = { version = "1", features = ["derive"] }
chrono = "0.4"
tokio = { version = "1", features = ["full"] }
actix-web = "4"
async-trait = "0.1"
dotenvy = "0.15"
env_logger = "0.11"
thiserror = "1"

[dev-dependencies]
tempfile = "3"
