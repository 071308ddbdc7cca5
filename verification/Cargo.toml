[package]
name = "fsspec_browser"
version = "0.1.0"
edition = "2021"
publish = false

[dependencies]
serde_json = "=1.0.154"
url = "=2.5.8"
humantime = "=2.4.0"
crossterm = "=0.29.0"
ratatui = "=0.30.2"
fsspec_rs = "*"
