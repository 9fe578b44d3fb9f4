[package]
name = "membank"
version = "0.1.0"
edition = "2021"
publish = false

[dependencies]
argh = "0.1"
serde = { version = "1", features = ["derive"] }
serde_json = "1"
z3 = "0.12"
