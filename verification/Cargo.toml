[package]
name = "p2p_dir_sync"
version = "0.1.0"
edition = "2021"
publish = false

[dependencies]
anyhow = "=1.0.104"
base32 = "=0.5.1"
blake3 = "=1.8.7"
futures-lite = "=2.6.1"
iroh = { version = "=1.4.1", default-features = false, features = ["tls-ring"] }
iroh-base = { version = "=1.4.1", default-features = false, features = ["key"] }
iroh-blobs = { version = "=0.104.0", default-features = false, features = ["fs-store"] }
iroh-gossip = { version = "*", default-features = false, features = ["net"] }
iroh-tickets = { version = "=1.0.0", default-features = false }
rand = "=0.10.3"
serde = { version = "=1.0.229", features = ["derive"] }
serde_json = "=1.0.154"
tokio = { version = "=1.54.1", features = ["rt-multi-thread", "macros", "net", "io-util", "fs", "sync", "time", "signal"] }
tokio-util = { version = "=0.7.20", default-features = false }
tracing = "=0.1.44"
tracing-subscriber = { version = "=0.3.23", default-features = false, features = ["env-filter", "fmt", "std", "registry"] }
