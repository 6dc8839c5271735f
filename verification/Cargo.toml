[package]
name = "p2p"
version = "0.1.0"
edition = "2021"
publish = false

[dependencies]
aes-gcm = "0.10"
anyhow = "1"
bincode = "1"
clap = { version = "4", features = ["derive"] }
dotenvy = "0.15"
env_logger = "0.11"
futures = "0.3"
get_if_addrs = "0.5"
hex = "0.4"
log = "0.4"
public-ip = "0.2"
rand = "0.9"
serde = { version = "1", features = ["derive"] }
serde_json = "1"
serde_yaml = "0.9"
sha1 = "0.10"
thiserror = "2"
tokio = { version = "1", features = ["full"] }
uuid = { version = "1", features = ["v4", "serde"] }

[dev-dependencies]
tempfile = "3"
