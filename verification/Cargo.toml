[package]
name = "nzbdav"
version = "0.1.0"
edition = "2021"
publish = false

[dependencies]
arc-swap = "=1.9.3"
axum = { version = "=0.8.9", features = ["multipart"] }
bincode = "=1.3.3"
bytes = "=1.12.1"
chrono = "=0.4.45"
http = "=1.5.0"
md-5 = "=0.10.6"
mime_guess = "=2.0.5"
nzb-core = "=0.2.2"
nzb-decode = "=0.1.1"
nzb-nntp = "=0.2.3"
parking_lot = "=0.12.5"
percent-encoding = "=2.3.2"
reqwest = { version = "=0.12.28", default-features = false }
rusqlite = "=0.32.1"
rust-embed = "=8.13.0"
rust-par2 = "=0.1.2"
serde = { version = "=1.0.229", features = ["derive"] }
serde_json = "=1.0.154"
tokio = { version = "=1.54.1", features = ["full"] }
tokio-util = { version = "=0.7.20", features = ["io"] }
tracing = "=0.1.44"
uuid = { version = "=1.29.0", features = ["v4", "v5"] }
