[package]
name = "lem-ratatui"
version = "0.1.0"
edition = "2021"
publish = false

[dependencies]
ratatui-core = "*"
ratatui-crossterm = "*"
crossterm = "*"
serde = { version = "1", features = ["derive"] }
serde_json = "1"
anyhow = "1"
arboard = { version = "3", default-features = false }
duct = "*"
os_pipe = "*"
