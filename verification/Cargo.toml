[package]
name = "portfolio"
version = "0.1.0"
edition = "2021"
publish = false

[dependencies]
bigdecimal = "*"
chrono = "0.4"
csv = "1"
serde = { version = "1", features = ["derive"] }
