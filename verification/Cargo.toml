[package]
name = "rust_bittorrent"
version = "0.1.0"
edition = "2021"
publish = false

[dependencies]
anyhow = "1"
async-channel = "2"
bytes = "1"
clap = { version = "4", features = ["derive"] }
env_logger = "0.10"
form_urlencoded = "1"
hex = "0.4"
lava_torrent = "0.11"
log = "0.4"
rand = "0.8"
reqwest = { version = "0.11", default-features = false }
serde = { version = "1", features = ["derive"] }
serde_bencode = "0.2"
serde_bytes = "0.11"
serde_derive = "1"
serde_json = "1"
sha1 = "0.10"
tokio = { version = "1", features = ["full"] }
warp = { version = "0.3", default-features = false }
