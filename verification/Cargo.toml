[package]
name = "gus"
version = "0.1.0"
edition = "2021"
publish = false

[dependencies]
bincode = "0.9"
chrono = "0.4"
rand = "0.4"
serde = { version = "1", features = ["derive"] }
