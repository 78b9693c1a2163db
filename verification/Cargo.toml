[package]
name = "sshx"
version = "0.1.0"
edition = "2021"
publish = false

[dependencies]
arboard = "=3.7.0"
clap = { version = "=4.6.7", features = ["derive"] }
console = "=0.16.6"
dialoguer = "=0.12.0"
dirs = "=7.0.0"
glob = "=0.3.4"
indexmap = "=2.14.2"
ratatui = { version = "=0.30.2", default-features = false }
serde = { version = "=1.0.229", features = ["derive"] }
shell-words = "=1.1.1"
skim = "=5.9.0"
toml = "=1.1.8"
