[package]
name = "punkgo"
version = "0.1.0"
edition = "2021"
publish = false

[dependencies]
sha2 = "0.10"
globset = "0.4"
tlog_tiles = "*"
ed25519-dalek = { version = "2", features = ["rand_core"] }
rand = "0.8"
serde = { version = "1", features = ["derive"] }
serde_json = "1"
tokio = { version = "1", features = ["full"] }
interprocess = { version = "2", features = ["tokio"] }
anyhow = "1"
uuid = { version = "1", features = ["v4"] }
toml = "0.8"
tracing = "0.1"
tracing-subscriber = "0.3"
fs2 = "0.4"
thiserror = "1"
async-trait = "0.1"
