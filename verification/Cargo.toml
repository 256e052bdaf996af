[package]
name = "herdr_flash"
version = "0.1.0"
edition = "2021"
publish = false

[dependencies]
toml = "1"
serde_json = "1"
ratatui = "*"
crossterm = "*"
