[package]
name = "blackholed"
version = "0.1.0"
edition = "2021"
publish = false

[dependencies]
hickory-server = { version = "=0.25.2", features = ["resolver", "tls-ring"] }
base64 = "=0.22.1"
anyhow = "=1.0.104"
tokio = { version = "=1.54.1", features = ["full"] }
axum = "=0.7.9"
sqlx = { version = "=0.8.6", default-features = false, features = ["runtime-tokio", "any", "sqlite", "postgres"] }
redis = { version = "=1.8.1", features = ["tokio-comp", "aio"] }
rslock = { version = "=0.10.0", features = ["tokio-comp"] }
reqwest = { version = "=0.12.28", default-features = false, features = ["rustls-tls", "stream"] }
notify = "=8.2.1"
tokio-graceful = "=0.2.2"
tokio-util = { version = "=0.7.20", features = ["rt", "io"] }
tower-http = { version = "=0.6.11", features = ["fs", "trace"] }
tracing = "=0.1.44"
tracing-subscriber = { version = "=0.3.23", features = ["env-filter", "json"] }
futures = "=0.3.34"
async-trait = "=0.1.92"
chrono = { version = "=0.4.45", features = ["serde"] }
serde = { version = "=1.0.229", features = ["derive"] }
serde_json = "=1.0.154"
log = "=0.4.35"
nix = { version = "=0.29.0", features = ["signal", "process"] }
config = { version = "=0.14.1", default-features = false, features = ["toml"] }
