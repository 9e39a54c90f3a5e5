[package]
name = "web_sanitizer"
version = "0.1.0"
edition = "2021"
publish = false

[dependencies]
url = "2"
sha2 = "0.10"
base64 = "0.22"
unicode-normalization = "0.1"
anyhow = "1"
chrono = "0.4"
clap = { version = "4", features = ["derive"] }
colored = "2"
futures-util = "0.3"
hickory-resolver = "0.25"
itertools = "0.14"
lol_html = "2"
parking_lot = "0.12"
reqwest = { version = "0.12", default-features = false, features = ["rustls-tls", "stream"] }
serde = { version = "1", features = ["derive"] }
strip-ansi-escapes = "0.2"
thiserror = "2"
tokio = { version = "1", features = ["rt-multi-thread", "time", "net", "macros"] }
toml = "0.8"
walkdir = "2"
humantime-serde = "1"
