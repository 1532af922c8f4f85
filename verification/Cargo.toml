[package]
name = "wisprfree"
version = "0.1.3"
edition = "2021"
publish = false

[dependencies]
anyhow = "1"
crossbeam-channel = "0.5"
dirs = "5"
env_logger = "0.11"
hound = "3"
log = "0.4"
once_cell = "1"
parking_lot = "0.12"
rubato = "0.15"
serde = { version = "1", features = ["derive"] }
serde_json = "1"
tempfile = "3"
toml = "0.8"
