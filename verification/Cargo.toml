[package]
name = "jikyuu"
version = "0.1.0"
edition = "2021"
publish = false

[dependencies]
anyhow = "1"
chrono = "0.4"
clap = "2"
git2 = { version = "*", default-features = false }
prettytable-rs = "*"
regex = "1"
serde = { version = "1", features = ["derive"] }
serde_json = "1"
