[package]
name = "keyfile"
version = "0.1.0"
edition = "2021"
publish = false

[dependencies]
scrypt = "0.11"
rand = "0.8"
chrono = "0.4"
clap = { version = "4", features = ["derive", "env"] }
indicatif = "0.17"
merge = "0.1"
humantime = "2"
serde = { version = "1", features = ["derive"] }
serde_with = "3"
serde_json = "1"
