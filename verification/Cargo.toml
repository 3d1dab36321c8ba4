[package]
name = "mbx_cache"
version = "0.1.0"
edition = "2021"
publish = false

[dependencies]
blake3 = "=1.8.7"
hex = "=0.4.3"
serde = { version = "=1.0.229", features = ["derive"] }
serde_json = "=1.0.154"
toml = "=0.8.23"
dirs = "=5.0.1"
eyre = "=0.6.14"
tempfile = "=3.27.0"
thiserror = "=1.0.69"
libc = "=0.2.191"
rand = "0.8"

[dev-dependencies]
tempfile = "=3.27.0"
