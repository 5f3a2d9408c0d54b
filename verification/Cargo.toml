[package]
name = "touch-n-drink"
version = "0.1.0"
edition = "2021"
publish = false

[dependencies]
const-hex = "1"
serde = { version = "1", features = ["derive"] }
serde_json = "1"
serde_with = "3"
chrono = "0.4"
embedded-graphics = "0.8"
sha2 = "0.10"
anyhow = "1"
clap = { version = "4", features = ["derive"] }
clap-cargo = "*"
log = "0.4"
