[package]
name = "wifi_clock"
version = "0.1.0"
edition = "2021"
publish = false

[dependencies]
embassy-rp = "=0.1.0"
embassy-sync = { version = "=0.5.0", features = ["std"] }
embassy-time = "=0.3.2"
static_cell = "=2.1.1"
