[package]
name = "code_collector"
version = "1.0.0"
edition = "2021"
publish = false

[dependencies]
anyhow = "1"
clap = { version = "4", features = ["derive"] }
dirs = "*"
hex = "0.4"
ignore = "0.4"
serde = { version = "1", features = ["derive"] }
toml = "*"
