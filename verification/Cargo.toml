[package]
name = "ttsmagic"
version = "0.1.0"
edition = "2021"
publish = false

[dependencies]
anyhow = "1"
async-std = { version = "1", features = ["attributes"] }
async-tungstenite = { version = "0.28", default-features = false, features = ["async-std-runtime", "handshake"] }
chrono = { version = "0.4", default-features = false, features = ["alloc", "now", "serde", "std"] }
clap = { version = "2", default-features = false }
cookie = "0.18"
csv = "1"
futures = "0.3"
hex = "0.4"
image = { version = "0.24", default-features = false, features = ["jpeg", "png"] }
nonempty = "*"
percent-encoding = "2"
rand = "0.8"
redis = { version = "0.27", default-features = false, features = ["aio", "async-std-comp"] }
ring = "0.17"
rusoto_signature = { version = "0.48", default-features = false }
scraper = { version = "*", default-features = false }
serde = { version = "1", features = ["derive"] }
serde_json = "1"
serde_qs = "0.13"
smallvec = "1"
surf = { version = "2", default-features = false, features = ["h1-client-rustls"] }
tide = { version = "0.16", default-features = false, features = ["h1-server"] }
toml = "0.5"
url = { version = "2", features = ["serde"] }
uuid = { version = "1", features = ["serde", "v4"] }
