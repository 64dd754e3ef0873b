[package]
name = "sshpass-rs"
version = "0.1.0"
edition = "2021"
publish = false

[dependencies]
clap = { version = "4", features = ["derive"] }
keyring = "3"
nix = { version = "0.29", features = ["term", "signal", "process", "fs"] }
portable-pty = "*"
rpassword = "7"
secrecy = "0.10"
serde = { version = "1", features = ["derive"] }
serde_json = "1"
signal-hook = "0.3"
thiserror = "2"

[dev-dependencies]
tempfile = "3"
