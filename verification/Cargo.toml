[package]
name = "email_to_markdown"
version = "0.1.0"
edition = "2021"
publish = false

[dependencies]
anyhow = "=1.0.104"
chrono = "=0.4.45"
clap = { version = "=4.6.7", features = ["derive"] }
csv = "=1.4.0"
dotenv = "=0.15.0"
imap = "=2.4.1"
mailparse = "=0.17.0"
native-tls = "*"
serde = { version = "=1.0.229", features = ["derive"] }
serde_json = "*"
serde_yaml = "=0.9.34"
