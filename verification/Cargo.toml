[package]
name = "backup"
version = "0.1.0"
edition = "2021"
publish = false

[dependencies]
anyhow = "1"
bzip2 = "*"
chrono = "0.4"
clap = { version = "4", features = ["derive"] }
crossbeam = "0.8"
hex = "0.4"
rand = "0.9"
serde = { version = "1", features = ["derive"] }
serde_json = "1"
sha2 = "0.10"
