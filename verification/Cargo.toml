[package]
name = "ners"
version = "0.1.0"
edition = "2021"
publish = false

[dependencies]
bytes = "1"
log = "0.4"
env_logger = "0.11"
nix = { version = "0.29", features = ["sched"] }
parking_lot = "0.12"
serde = { version = "1", features = ["derive"] }
thiserror = "1"
