[package]
name = "site"
version = "0.1.0"
edition = "2021"
publish = false

[dependencies]
comrak = { version = "=0.55.0", default-features = false }
hmac = "=0.12.1"
sha2 = "=0.10.9"
hex = "=0.4.3"
serde = { version = "=1.0.229", features = ["derive"] }
serde_json = "=1.0.154"
chrono = { version = "=0.4.45", features = ["serde"] }
axum = "=0.8.9"
tokio = { version = "=1.54.1", features = ["full"] }
redis = { version = "=1.8.1", features = ["tokio-comp"] }
reqwest = { version = "=0.12.28", default-features = false, features = ["rustls-tls"] }
thiserror = "=2.0.21"
tracing = "=0.1.44"
tracing-subscriber = "=0.3.23"
leptos = { version = "=0.8.23", features = ["ssr"] }
leptos_router = { version = "=0.8.17", features = ["ssr"] }
leptos_axum = "=0.8.10"

[dev-dependencies]
chrono = "=0.4.45"
