[package]
name = "fbc_host"
version = "0.1.0"
edition = "2021"
publish = false

[dependencies]
crc32fast = "=1.5.4"
clap = { version = "=4.6.7", features = ["derive"] }
anyhow = "=1.0.104"
serde = { version = "=1.0.229", features = ["derive"] }
serde_json = "=1.0.154"
uuid = { version = "=1.29.0", features = ["v4"] }
chrono = "=0.4.45"
csv = "=1.4.0"
calamine = "=0.38.0"
pdf-extract = "=0.12.1"
pnet_datalink = "*"
