[package]
name = "handshake"
version = "0.1.0"
edition = "2021"
publish = false

[dependencies]
rand = "0.8"
bincode = "1"
serde = { version = "1", features = ["derive"] }
thiserror = "1"
clap = { version = "4", features = ["derive"] }
anyhow = "1"
tokio = { version = "1", features = ["sync", "rt", "macros", "time", "signal"] }
futures = "0.3"
parking_lot = "0.12"
