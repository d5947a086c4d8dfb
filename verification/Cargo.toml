[package]
name = "quiche_apps"
version = "0.1.0"
edition = "2021"
publish = false

[dependencies]
env_logger = "=0.10.2"
mio = { version = "=0.8.11", features = ["net", "os-poll"] }
quiche = { version = "=0.24.9", default-features = false }
rand = "=0.8.8"
url = "=2.5.8"

[dev-dependencies]
tempfile = "=3.27.0"
