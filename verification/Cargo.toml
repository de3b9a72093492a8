[package]
name = "secretstash"
version = "0.1.0"
edition = "2021"
publish = false

[dependencies]
anyhow = "=1.0.104"
argon2 = "=0.5.3"
base64 = "=0.22.1"
chacha20poly1305 = "=0.10.1"
chrono = "=0.4.45"
clap = { version = "=4.6.7", features = ["derive"] }
clap_complete = "=4.6.11"
dirs = "=7.0.0"
open = "=5.4.5"
rand_core = { version = "=0.9.5", features = ["os_rng"] }
regex = "=1.13.1"
rpassword = "=7.5.4"
rusqlite = { version = "=0.41.1", features = ["bundled-sqlcipher"] }
security-framework = "3"
serde = { version = "=1.0.229", features = ["derive"] }
serde_json = "=1.0.154"
tempfile = "=3.27.0"
toml = "=1.1.8"
zeroize = "=1.9.1"
