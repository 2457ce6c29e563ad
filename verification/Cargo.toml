[package]
name = "zeta"
version = "0.1.0"
edition = "2021"
publish = false

[dependencies]
secp256k1 = { version = "=0.29.1", features = ["rand-std"] }
rand = "=0.8.8"
sha2 = "=0.10.9"
hex = "=0.4.3"
chrono = "=0.4.45"
serde = { version = "=1.0.229", features = ["derive"] }
bincode = "=1.3.3"
anyhow = "=1.0.104"
async-trait = "=0.1.92"
tokio = { version = "=1.54.1", features = ["full"] }
clap = { version = "=4.6.7", features = ["derive"] }
axum = "=0.8.9"
tower-http = { version = "=0.6.11", features = ["cors"] }
rusqlite = { version = "=0.32.1", features = ["bundled"] }
stunclient = "=0.4.2"
log = "=0.4.35"
simple_logger = "=5.2.0"
nat-detect = "=0.1.7"
