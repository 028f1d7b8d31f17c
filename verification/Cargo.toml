[package]
name = "command_parser"
version = "0.1.0"
edition = "2021"
publish = false

[dependencies]
serenity = { version = "0.10", features = ["unstable_discord_api"] }
reqwest = { version = "0.11", features = ["json"] }
image = "0.24"
base64 = "0.13"
serde = { version = "1", features = ["derive"] }
