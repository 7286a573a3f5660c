[package]
name = "feedlizard"
version = "0.1.0"
edition = "2021"
publish = false

[dependencies]
base64 = "=0.22.1"
chrono = "=0.4.45"
ego-tree = "=0.11.1"
flate2 = "=1.1.10"
futures = "=0.3.34"
futures-util = "=0.3.34"
gtk4 = "*"
httpdate = "=1.0.3"
image = { version = "=0.25.10", default-features = false, features = ["gif", "ico", "jpeg", "png", "webp"] }
libadwaita = "*"
nostr-sdk = { version = "=0.44.1", features = ["nip44"] }
oo7 = "=0.6.0"
reqwest = { version = "=0.12.28", default-features = false, features = ["rustls-tls", "gzip", "brotli", "stream"] }
roxmltree = "=0.21.2"
rusqlite = { version = "=0.41.1", features = ["bundled"] }
scraper = "=0.29.0"
serde = { version = "=1.0.229", features = ["derive"] }
serde_json = { version = "=1.0.154", features = ["raw_value"] }
sha2 = "=0.10.9"
thiserror = "=2.0.21"
tokio = { version = "=1.54.1", features = ["full"] }
unicode-normalization = "=0.1.26"
url = "=2.5.8"
zbus = { version = "=5.19.0", default-features = false, features = ["tokio"] }

[dev-dependencies]
tempfile = "=3.27.0"
