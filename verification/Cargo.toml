[package]
name = "sqlchisel"
version = "0.1.0"
edition = "2021"
publish = false

[dependencies]
sqlparser = "=0.61.0"
regex = "=1.13.1"
anyhow = "=1.0.104"
clap = { version = "=4.6.7", features = ["derive"] }
serde = { version = "=1.0.229", features = ["derive"] }
toml = "=1.1.8"
