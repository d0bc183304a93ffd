[package]
name = "risk_scoring"
version = "0.1.0"
edition = "2021"
publish = false

[dependencies]
fixed = "=1.31.0"
serde = { version = "=1.0.229", features = ["derive"] }
serde_json = "=1.0.154"
axum = { version = "=0.7.9", default-features = false, features = ["tokio", "http1"] }
tokio = { version = "=1.54.1", features = ["rt-multi-thread", "net"] }
rusqlite = { version = "=0.41.1", default-features = false, features = ["bundled"] }
alloy = { version = "0.3", default-features = false, features = ["std", "contract", "providers", "reqwest"] }
