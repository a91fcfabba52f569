[package]
name = "text_art"
version = "0.1.0"
edition = "2021"
publish = false

[dependencies]
carapax = "0.2"
dotenv = "*"
env_logger = "*"
futures = "0.1"
log = "0.4"
tokio = "0.1"
