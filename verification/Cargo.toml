[package]
name = "netfory-provider"
version = "0.6.2"
edition = "2021"
publish = false

[dependencies]
anyhow = "=1.0.104"
axum = { version = "=0.8.9", default-features = false, features = ["http1", "tokio"] }
base64 = "=0.22.1"
bip39 = { version = "=2.2.2", features = ["rand"] }
ed25519-dalek = "=3.0.0"
futures-util = { version = "=0.3.34", default-features = false, features = ["sink", "std"] }
hex = "=0.4.3"
iroh = { version = "=1.4.1", default-features = false, features = ["tls-ring"] }
iroh-gossip = { version = "=0.101.0", default-features = false, features = ["net"] }
iroh-mainline-address-lookup = { version = "=0.6.1", default-features = false }
n0-future = { version = "=0.3.2", default-features = false }
n0-mainline = { version = "=0.7.1", default-features = false }
rand = "=0.8.8"
reqwest = { version = "=0.13.5", default-features = false }
serde = { version = "=1.0.229", features = ["derive"] }
serde_json = "=1.0.154"
serde_yaml = "=0.9.34"
sha2 = "=0.11.1"
tokio = { version = "=1.54.1", features = ["io-util", "macros", "net", "rt-multi-thread", "signal", "sync", "time"] }
tokio-tungstenite = { version = "=0.30.0", default-features = false, features = ["connect"] }
tracing = "=0.1.44"
tracing-subscriber = { version = "=0.3.23", default-features = false, features = ["env-filter", "fmt"] }
