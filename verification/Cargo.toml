[package]
name = "basecamp"
version = "0.1.0"
edition = "2021"
publish = false

[dependencies]
git2 = { version = "*", default-features = false }
clap = { version = "*", features = ["derive"] }
console = "*"
dialoguer = "*"
env_logger = "*"
indicatif = "*"
log = "*"
prettytable-rs = "*"
serde = { version = "*", features = ["derive"] }
serde_yaml = "*"
thiserror = "*"
