[package]
name = "jellycat"
version = "0.1.0"
edition = "2021"
publish = false

[dependencies]
anyhow = "1"
clap = { version = "4", features = ["derive"] }
clap_complete = "4"
color-eyre = "0.6"
console = "0.15"
dialoguer = "0.11"
eyre = "0.6"
indicatif = "0.17"
rand = "0.9"
serde = { version = "1", features = ["derive"] }
serde_json = "1"
tracing = "0.1"
tracing-subscriber = "0.3"
