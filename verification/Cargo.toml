[package]
name = "komga_core"
version = "0.1.0"
edition = "2021"
publish = false

[dependencies]
sha2 = "=0.11.1"
tsid = "=0.3.4"
tokio = { version = "=1.54.1", features = ["rt", "sync", "time", "fs", "macros", "signal"] }
image = { version = "=0.25.10", default-features = false, features = ["jpeg", "png", "gif", "webp"] }
serde = { version = "=1.0.229", features = ["derive"] }
serde_json = "=1.0.154"
anyhow = "=1.0.104"
tracing = "=0.1.44"
reqwest = { version = "=0.12.28", default-features = false, features = ["json", "rustls-tls"] }
tar = "=0.4.46"
flate2 = "=1.1.10"
async-trait = "=0.1.92"
sqlx = { version = "0.8", default-features = false, features = ["runtime-tokio", "sqlite"] }
