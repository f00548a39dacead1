[package]
name = "cloudflare_ddns"
version = "0.1.0"
edition = "2021"
publish = false

[dependencies]
clap = { version = "4", features = ["derive"] }
ctrlc = "3"
flexi_logger = { version = "*", features = ["async", "compress"] }
futures = "0.3"
log = "0.4"
mimalloc = "0.1"
parking_lot = "0.12"
reqwest = { version = "0.12", default-features = false, features = ["gzip", "http2", "json", "rustls-tls"] }
serde = { version = "1", features = ["derive"] }
serde_json = "1"
tokio = { version = "1", features = ["fs", "macros", "rt", "rt-multi-thread", "sync", "time"] }
toml = "*"
url = { version = "2", features = ["serde"] }
windows-services = "*"
