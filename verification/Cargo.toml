[package]
name = "natsu-typeless"
version = "0.1.0"
edition = "2021"
publish = false

[dependencies]
anyhow = "1"
base64 = "0.22"
clap = { version = "4", features = ["derive"] }
keyring = { version = "3", default-features = false, features = ["async-secret-service", "tokio", "crypto-rust"] }
libc = "0.2"
reqwest = { version = "0.12", default-features = false, features = ["json", "multipart", "http2", "rustls-tls"] }
rpassword = "7"
serde = { version = "1", features = ["derive"] }
serde_json = "1"
tokio = { version = "1", features = ["full"] }
tracing = "0.1"
tracing-subscriber = { version = "0.3", features = ["env-filter"] }
zbus = { version = "5", default-features = false, features = ["tokio"] }
