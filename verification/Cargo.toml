[package]
name = "bsmcp"
version = "0.10.0"
edition = "2021"
publish = false

[dependencies]
aes-gcm = "=0.10.3"
async-trait = "=0.1.92"
axum = "=0.8.9"
base64 = "=0.22.1"
chrono = { version = "=0.4.45", default-features = false, features = ["clock", "std"] }
chrono-tz = "=0.10.4"
fastembed = { version = "=5.17.4", default-features = false, features = ["hf-hub", "ort-load-dynamic"] }
hf-hub = { version = "=0.4.3", default-features = false, features = ["ureq"] }
pgvector = { version = "=0.4.1", features = ["sqlx"] }
reqwest = { version = "=0.12.28", default-features = false, features = ["json", "multipart", "rustls-tls"] }
rusqlite = { version = "=0.32.1", features = ["bundled", "backup"] }
serde = { version = "=1.0.229", features = ["derive"] }
serde_json = "=1.0.154"
sha2 = "=0.10.9"
sqlx = { version = "=0.8.6", default-features = false, features = ["runtime-tokio", "postgres"] }
tokio = { version = "=1.54.1", features = ["full"] }
tracing = "=0.1.44"
tracing-subscriber = { version = "=0.3.23", features = ["env-filter", "json"] }
url = "=2.5.8"
uuid = { version = "=1.29.0", features = ["v4"] }
zeroize = "=1.9.1"
