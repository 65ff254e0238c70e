[package]
name = "dynein"
version = "0.1.0"
edition = "2021"
publish = false

[dependencies]
base64 = "=0.22.1"
bytes = "=1.12.1"
backon = "=1.6.0"
clap = { version = "=4.6.7", features = ["derive"] }
serde = { version = "=1.0.229", features = ["derive"] }
serde_json = "=1.0.154"
serde_yaml = "=0.9.34"
tokio = { version = "=1.54.1", features = ["rt-multi-thread", "macros"] }
log = "=0.4.35"
env_logger = "=0.11.11"
dialoguer = "=0.11.0"
tabwriter = "=1.4.1"
futures = "=0.3.34"
chrono = "=0.4.45"
dirs = "=5.0.1"
tempfile = "=3.27.0"
thiserror = "=1.0.69"
atty = "=0.2.14"
pest = "2"
