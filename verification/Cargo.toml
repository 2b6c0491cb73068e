[package]
name = "editty"
version = "0.1.0"
edition = "2021"
publish = false

[dependencies]
anyhow = "1"
base64 = "0.22"
clap = { version = "4", features = ["derive"] }
crossbeam-channel = "0.5"
libc = "0.2"
ratatui = "*"
serde = { version = "1", features = ["derive"] }
serde_json = "1"
subtp = "*"
unicode-width = "*"
