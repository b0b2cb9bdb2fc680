[package]
name = "supra"
version = "0.1.0"
edition = "2021"
publish = false

[dependencies]
ansi_term = "0.12"
clap = "3"
pandoc = "*"
regex = "1"
ron = "*"
serde = { version = "1", features = ["derive"] }
serde_json = "1"
serde_yaml = "*"
zip = "*"
