[package]
name = "astranova"
version = "0.1.0"
edition = "2021"
publish = false

[dependencies]
url = "=2.5.8"
md5 = "=0.7.0"
serde = { version = "=1.0.229", features = ["derive"] }
serde_json = "=1.0.154"
rusqlite = { version = "=0.41.1", features = ["bundled"] }
reqwest = { version = "=0.12.28", default-features = false, features = ["multipart", "rustls-tls"] }
tokio = { version = "=1.54.1", features = ["time", "fs", "rt", "macros"] }
base64 = "=0.22.1"
csv = "=1.4.0"
directories = "=6.0.0"
thiserror = "=2.0.21"
log = "=0.4.35"
http = "=1.5.0"
urlencoding = "2"
