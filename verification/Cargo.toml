[package]
name = "styx"
version = "0.1.0"
edition = "2021"
publish = false

[dependencies]
parking_lot = "=0.12.5"
yuvutils-rs = { version = "=0.8.3", features = ["fast_mode"] }
