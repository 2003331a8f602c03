[package]
name = "notes_server"
version = "0.1.0"
edition = "2021"
publish = false

[dependencies]
comrak = { version = "=0.8.2", default-features = false }
tide = "=0.16.0"
async-std = { version = "=1.13.2", features = ["attributes"] }
serde = { version = "=1.0.229", features = ["derive"] }
percent-encoding = "=2.3.2"
