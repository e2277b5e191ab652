[package]
name = "ts_bridge"
version = "0.1.0"
edition = "2021"
publish = false

[dependencies]
anyhow = "*"
crossbeam-channel = "*"
env_logger = "*"
log = "*"
lsp-server = "*"
lsp-types = "*"
serde = { version = "*", features = ["derive"] }
serde_json = "*"
tempfile = "*"
thiserror = "*"
url = "*"
which = "*"
