[package]
name = "coop_scheduler"
version = "0.1.0"
edition = "2021"
publish = false

[dependencies]
uuid = { version = "=1.29.0", features = ["v4"] }
anyhow = "=1.0.104"
log = "=0.4.34"
esp-idf-hal = "=0.43.1"
esp-idf-svc = "=0.48.1"
