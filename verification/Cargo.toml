[package]
name = "iroh-dns-server"
version = "0.1.0"
edition = "2021"
publish = false

[dependencies]
anyhow = "1"
dirs-next = "2"
governor = "0.6"
http = "1"
serde = { version = "1", features = ["derive"] }
tokio = { version = "1", features = ["fs", "rt", "time"] }
toml = "0.8"
tower_governor = "0.3"
tracing = "0.1"
