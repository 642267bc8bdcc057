[package]
name = "vellum"
version = "0.1.0"
edition = "2021"
publish = false

[dependencies]
alphanumeric-sort = "=1.5.8"
blake3 = "=1.8.7"
globset = "=0.4.21"
regex = "=1.13.1"
roaring = "=0.12.0"
serde_json = "=1.0.154"
serde = { version = "=1.0.229", features = ["derive"] }
toml = "=1.1.8"
clap = { version = "=4.6.7", features = ["derive"] }
anyhow = "=1.0.104"
log = "=0.4.35"
simple_logger = "=5.2.0"
walkdir = "=2.5.0"
lava_torrent = "=0.11.1"
tokio = { version = "=1.54.1", features = ["full"] }
rayon = "*"
chrono = "*"
base64 = "*"
