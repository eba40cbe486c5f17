[package]
name = "request_duplicator"
version = "0.1.0"
edition = "2021"
publish = false

[dependencies]
anyhow = "1"
async-channel = "2"
axum = "0.7"
bytes = "1"
clap = { version = "4", features = ["derive", "env"] }
h2 = "0.4"
hickory-resolver = "0.24"
http = "1"
hyper = "1"
itertools = "0.13"
once_cell = "1"
reqwest = { version = "0.12", default-features = false, features = ["http2", "rustls-tls"] }
serde = { version = "1", features = ["derive"] }
serde_json = "1"
tokio = { version = "1", features = ["full"] }
tokio-rustls = { version = "0.26", default-features = false, features = ["ring", "tls12", "logging"] }
tracing = "0.1"
tracing-subscriber = "0.3"
ulid = "1"
webpki-roots = "0.26"
