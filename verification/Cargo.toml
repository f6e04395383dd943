[package]
name = "hebo"
version = "0.1.0"
edition = "2021"
publish = false

[dependencies]
pbkdf2 = "*"
sha2 = "*"
base64 = "*"
clap = "*"
toml = "*"
serde = { version = "*", features = ["derive"] }
nc = "*"
log = "*"
