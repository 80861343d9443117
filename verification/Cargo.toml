[package]
name = "nicewatch"
version = "0.1.0"
edition = "2021"
publish = false

[dependencies]
base64 = "0.22"
serde = { version = "1", features = ["derive"] }
serde_json = "1"
toml = "0.8"
libc = "0.2"
log = "0.4"
clap = { version = "4", features = ["derive"] }
ctrlc = "3"
env_logger = "0.11"
notify = "6"
