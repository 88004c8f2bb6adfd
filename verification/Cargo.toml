[package]
name = "rabies"
version = "0.1.0"
edition = "2021"
publish = false

[dependencies]
atomic_float = "=1.1.0"
cpal = "0.15"
parking_lot = "0.12"
symphonia = { version = "0.5", features = ["mp3", "aac", "isomp4"] }
