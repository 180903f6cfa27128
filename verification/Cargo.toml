[package]
name = "dragon_fox"
version = "0.1.0"
edition = "2021"
publish = false

[dependencies]
sled = "=0.34.7"
ammonia = "=4.2.4"
password-auth = "=1.0.0"
argon2 = "=0.5.3"
axum = "=0.8.9"
axum-login = "=0.18.0"
axum-htmx = "=0.8.1"
askama = "=0.16.1"
serde = { version = "=1.0.229", features = ["derive"] }
tokio = { version = "=1.54.1", features = ["full"] }
futures = "=0.3.34"
tower-http = { version = "=0.7.1", features = ["fs"] }
tower-sessions = { version = "=0.14.0", features = ["memory-store"] }
tracing = "=0.1.44"
tracing-subscriber = { version = "=0.3.23", features = ["env-filter"] }
thiserror = "=2.0.21"

[dev-dependencies]
bincode = "=1.3.3"
