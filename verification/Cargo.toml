[package]
name = "memex"
version = "0.1.0"
edition = "2021"
publish = false

[dependencies]
anyhow = "*"
chrono = { version = "=0.4.45", default-features = false, features = ["std", "clock"] }
crossterm = "*"
directories = "*"
model2vec-rs = "=0.3.0"
ratatui = "*"
regex = "=1.13.1"
serde = { version = "*", features = ["derive"] }
serde_json = "*"
toml = "*"
