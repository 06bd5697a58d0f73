[package]
name = "matrix65"
version = "0.1.0"
edition = "2021"
publish = false

[dependencies]
hex = "*"
serialport = "*"
clap = { version = "*", features = ["derive"] }
crossterm = "*"
tui = "*"
reedline-repl-rs = "*"
reqwest = { version = "*", features = ["blocking"] }
serde = { version = "*", features = ["derive"] }
serde_json = "*"
cbm = "*"
tempfile = "*"
anyhow = "*"
log = "*"
pretty_env_logger = "*"
parse_int = "*"
