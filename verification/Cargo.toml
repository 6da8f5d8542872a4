[package]
name = "tunes"
version = "0.1.0"
edition = "2021"
publish = false

[dependencies]
dirs = "6"
lofty = "0.22"
notify = "8"
rodio = "0.21"
serde = { version = "1", features = ["derive"] }
serde_json = "1"
