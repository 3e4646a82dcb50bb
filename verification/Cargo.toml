[package]
name = "rusty"
version = "0.1.0"
edition = "2021"
publish = false

[dependencies]
regex = "1"
serde = { version = "1", features = ["derive"] }
serde_json = "1"
serde_yml = "*"
toml = "*"
clap = { version = "4", features = ["derive"] }
libloading = "0.8"
chrono = "0.4"
