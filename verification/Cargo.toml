[package]
name = "ghostbay"
version = "0.1.0"
edition = "2021"
publish = false

[dependencies]
anyhow = "=1.0.104"
axum = "=0.7.9"
axum-server = { version = "0.7.3", features = ["tls-rustls"] }
bytes = "=1.12.1"
chrono = "=0.4.45"
clap = { version = "=4.6.7", features = ["derive"] }
futures = "=0.3.34"
hex = "=0.4.3"
md-5 = "=0.10.6"
rand = "=0.8.8"
ring = "=0.17.14"
serde = { version = "=1.0.229", features = ["derive"] }
serde_json = "=1.0.154"
sqlx = { version = "=0.7.4", default-features = false, features = ["runtime-tokio", "sqlite"] }
thiserror = "=1.0.69"
tokio = { version = "=1.54.1", features = ["full"] }
tokio-util = { version = "=0.7.20", features = ["io"] }
toml = "=0.8.23"
tower = "=0.4.13"
tower-http = { version = "=0.5.2", features = ["compression-gzip", "cors", "trace"] }
tracing = "=0.1.44"
tracing-subscriber = { version = "=0.3.23", features = ["env-filter"] }
urlencoding = "=2.1.3"
uuid = { version = "=1.29.0", features = ["v4"] }
