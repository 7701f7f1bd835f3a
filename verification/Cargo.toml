[package]
name = "budget_tracker"
version = "0.1.0"
edition = "2021"
publish = false

[dependencies]
chrono = "*"
rust-crypto = "*"
openssl = "*"
serde = { version = "*", features = ["derive"] }
toml = "*"
termion = "*"
