[package]
name = "modelhub"
version = "0.1.0"
edition = "2021"
publish = false

[dependencies]
urlencoding = "2"
sha2 = "0.10"
sha1 = "0.10"
serde = { version = "1", features = ["derive"] }
serde_json = "1"
anyhow = "1"
reqwest = { version = "0.12", default-features = false, features = ["json", "stream", "rustls-tls"] }
tokio = { version = "1", features = ["rt-multi-thread", "macros"] }
futures-util = "0.3"
indicatif = "0.17"
tracing = "0.1"
