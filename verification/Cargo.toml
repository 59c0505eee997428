[package]
name = "sha_p2pool"
version = "0.1.0"
edition = "2021"
publish = false

[dependencies]
tari_common_types = { version = "=5.6.0", default-features = false }
tari_script = { version = "=5.6.0", default-features = false }
tari_hashing = "=5.6.0"
tari_crypto = "=0.23.4"
tari_utilities = "=0.10.0"
libp2p = { version = "=0.54.1", default-features = false, features = ["ed25519", "serde"] }
convert_case = "=0.6.0"
serde_json = "=1.0.154"
lru = "=0.12.5"
blake2 = "=0.10.6"
digest = "=0.10.7"
rand = "=0.8.8"
serde = { version = "=1.0.229", features = ["derive"] }
serde_cbor = "=0.11.2"
thiserror = "=1.0.69"
anyhow = "=1.0.104"
tokio = { version = "=1.54.1", features = ["full"] }
clap = { version = "=4.6.7", features = ["derive"] }
axum = "=0.7.9"
hex = "=0.4.3"
log = "=0.4.35"
bincode = "=1.3.3"
human_format = "1"
humantime = "=2.4.0"
dirs = "5"
rkv = { version = "0.19", features = ["lmdb"] }
tari_shutdown = "*"
tari_common = { version = "=5.6.0", default-features = false }
hickory-resolver = { version = "0.24", features = ["tokio-runtime"] }
