[package]
name = "js"
version = "0.1.0"
edition = "2021"
publish = false

[dependencies]
anyhow = "1"
arboard = "3"
crossterm = "0.28"
libc = "0.2"
mimalloc = "0.1"
ratatui = "0.29"
serde = "1"
serde_json = "1"
