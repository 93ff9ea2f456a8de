[package]
name = "water_sampling"
version = "0.1.0"
edition = "2021"
publish = false

[dependencies]
anyhow = "*"
axum = { version = "*", features = ["multipart"] }
chrono = { version = "*", features = ["serde"] }
clap = { version = "*", features = ["derive"] }
open = "*"
serde = { version = "*", features = ["derive"] }
serde_json = "*"
sqlx = { version = "=0.8.6", default-features = false, features = ["sqlite", "runtime-tokio", "chrono"] }
thiserror = "*"
tokio = { version = "*", features = ["full"] }
tower-http = { version = "*", features = ["cors"] }
tracing = "*"
tracing-subscriber = { version = "*", features = ["env-filter"] }
