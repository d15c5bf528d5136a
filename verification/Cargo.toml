[package]
name = "trinitychain"
version = "0.1.0"
edition = "2021"
publish = false

[dependencies]
sha2 = "=0.10.9"
hex = "=0.4.3"
fixed = "=1.31.0"
secp256k1 = { version = "=0.29.1", features = ["rand"] }
rand = "=0.8.8"
chrono = "=0.4.45"
rayon = "=1.12.0"
bip39 = "=2.2.2"
lru = "=0.12.5"
serde = { version = "=1.0.229", features = ["derive"] }
serde_json = "=1.0.154"
toml = "=0.8.23"
tokio = { version = "=1.54.1", features = ["full"] }
bincode = "=1.3.3"
aes-gcm = "=0.10.3"
argon2 = "=0.5.3"
base64 = "=0.22.1"
rpassword = "=7.5.4"
tempfile = "=3.27.0"
thiserror = "=1.0.69"
axum = "=0.7.9"
tower-http = { version = "=0.5.2", features = ["cors", "fs"] }
reqwest = { version = "=0.12.28", default-features = false, features = ["json", "rustls-tls"] }
clap = { version = "=4.6.7", features = ["derive"] }
