[package]
name = "marketplace_builder"
version = "0.1.0"
edition = "2021"
publish = false

[dependencies]
hex = "=0.4.3"
sha2 = "=0.10.9"
lru = "=0.19.0"
async-broadcast = "=0.7.2"
toml = "=1.1.8"
committable = "*"
tagged-base64 = "*"
serde = { version = "=1.0.229", features = ["derive"] }
serde_json = "=1.0.154"
anyhow = "=1.0.104"
futures = "=0.3.34"
url = "=2.5.8"
tokio = { version = "=1.54.1", features = ["rt-multi-thread", "macros", "time", "sync"] }
