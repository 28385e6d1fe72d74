[package]
name = "batty"
version = "0.1.0"
edition = "2021"
publish = false

[dependencies]
clap = { version = "4", features = ["derive"] }
crossterm = "*"
ctrlc = "3"
env_logger = "*"
humantime = "2"
log = "0.4"
plist = "1"
ratatui = "*"
starship-battery = "*"
