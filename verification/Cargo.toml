[package]
name = "azurejay"
version = "0.1.0"
edition = "2021"
publish = false

[dependencies]
anyhow = "=1.0.104"
argon2 = { version = "0.5", features = ["std"] }
async-trait = "=0.1.92"
axum = { version = "=0.8.9", features = ["multipart"] }
chrono = { version = "=0.4.45", features = ["serde"] }
futures = "=0.3.34"
jsonwebtoken = "=9.3.1"
redis = { version = "=1.8.1", features = ["tokio-comp", "connection-manager"] }
regex = "=1.13.1"
reqwest = { version = "=0.12.28", features = ["json", "multipart"] }
rig-core = "=0.32.0"
schemars = "=1.2.3"
serde = { version = "=1.0.229", features = ["derive"] }
serde_json = "=1.0.154"
sqlx = { version = "=0.8.6", default-features = false, features = ["runtime-tokio", "postgres", "uuid", "chrono", "macros", "migrate"] }
thiserror = "=2.0.21"
tracing = "=0.1.44"
uuid = { version = "=1.29.0", features = ["v4", "serde"] }
whatlang = "=0.16.4"
