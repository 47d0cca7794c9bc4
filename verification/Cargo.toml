[package]
name = "sirji"
version = "0.1.0"
edition = "2021"
publish = false

[dependencies]
anyhow = "=1.0.104"
data-encoding = "=2.11.1"
iroh = { version = "=1.4.1", features = ["platform-verifier"] }
iroh-mdns-address-lookup = "=0.6.1"
serde = { version = "=1.0.229", features = ["derive"] }
serde_json = "=1.0.154"
tokio = { version = "=1.54.1", features = ["full"] }
toml = "=1.1.8"
