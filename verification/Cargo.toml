[package]
name = "proarbitrage"
version = "0.1.0"
edition = "2021"
publish = false

[dependencies]
anyhow = "1"
chrono = "0.4"
crossbeam-channel = "0.5"
csv = "1"
futures-util = "0.3"
good_lp = { version = "1", default-features = false, features = ["minilp"] }
libc = "0.2"
polars = { version = "0.38", default-features = false, features = ["lazy", "parquet", "temporal"] }
rand = "0.8"
rayon = "1"
reqwest = { version = "0.11", default-features = false, features = ["json", "rustls-tls"] }
serde = { version = "1", features = ["derive"] }
serde_json = "1"
tokio = { version = "1", features = ["rt-multi-thread", "macros"] }
tokio-tungstenite = { version = "0.21", features = ["rustls-tls-webpki-roots"] }
