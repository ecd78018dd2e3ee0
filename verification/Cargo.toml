[package]
name = "insur_rag"
version = "0.1.0"
edition = "2021"
publish = false

[dependencies]
regex = "=1.13.1"
sha2 = "=0.10.9"
hex = "=0.4.3"
serde = { version = "=1.0.229", features = ["derive"] }
serde_json = "=1.0.154"
tokio = { version = "=1.54.1", features = ["full"] }
futures = "=0.3.34"
walkdir = "=2.5.0"
dotenvy = "=0.15.7"
reqwest = { version = "=0.12.28", default-features = false, features = ["json", "rustls-tls"] }
axum = "=0.7.9"
tower-http = { version = "=0.5.2", features = ["fs"] }
tracing-subscriber = "=0.3.23"
deadpool-redis = "=0.23.1"
redis = "=1.8.0"
arrow-array = "=60.0.0"
arrow-schema = "=60.0.0"
fastembed = { version = "=7.5.0", default-features = false, features = ["ort-load-dynamic", "hf-hub-rustls-tls"] }
