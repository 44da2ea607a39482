[package]
name = "intent_engine"
version = "0.1.0"
edition = "2021"
publish = false

[dependencies]
chrono = { version = "=0.4.45", features = ["serde"] }
serde = { version = "=1.0.229", features = ["derive"] }
serde_json = "=1.0.154"
anyhow = "=1.0.104"
zmq = "=0.10.0"
crossterm = "=0.28.1"
ratatui = "=0.29.0"
