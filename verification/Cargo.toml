[package]
name = "gossh"
version = "0.1.0"
edition = "2021"
publish = false

[dependencies]
strsim = "0.11"
crossterm = "0.28"
ratatui = "0.29"
tui-textarea = "0.7"
signal-hook = "0.3"
users = "0.11"

[dev-dependencies]
nom = "8"
