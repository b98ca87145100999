[package]
name = "pwatch"
version = "0.1.0"
edition = "2021"
publish = false

[dependencies]
clap = { version = "4", features = ["derive"] }
colored = "*"
comfy-table = "*"
crossterm = "*"
dirs = "*"
figlet-rs = "*"
nix = { version = "*", features = ["signal"] }
ratatui = "*"
serde = { version = "1", features = ["derive"] }
toml = "*"
