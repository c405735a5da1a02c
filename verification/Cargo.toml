[package]
name = "ecustats"
version = "0.1.0"
edition = "2021"
publish = false

[dependencies]
canparse = "=0.1.4"
clap = { version = "=3.2.25", features = ["derive"] }
signal-hook = "=0.3.18"
sled = { version = "=0.34.7", features = ["compression"] }
socketcan = "=1.7.0"
