[package]
name = "cts6_emulator"
version = "0.1.0"
edition = "2021"
publish = false

[dependencies]
chrono = "0.4"
ratatui = "0.29"
rodio = { version = "0.20", default-features = false, features = ["wav"] }
