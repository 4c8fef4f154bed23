[package]
name = "wovensnake"
version = "0.1.0"
edition = "2021"
publish = false

[dependencies]
pep508_rs = "=0.9.2"
serde_json = { version = "=1.0.154", features = ["preserve_order"] }
sha2 = "=0.10.9"
url = "=2.5.8"
clap = { version = "=4.6.7", features = ["derive"] }
dirs = "=5.0.1"
flate2 = "=1.1.10"
futures = "=0.3.34"
indicatif = "=0.17.11"
reqwest = { version = "=0.12.28", default-features = false, features = ["rustls-tls", "stream"] }
tar = "=0.4.46"
tempfile = "=3.27.0"
tokio = { version = "=1.54.1", features = ["rt-multi-thread", "macros", "signal"] }
zip = { version = "=2.6.1", default-features = false, features = ["deflate"] }
