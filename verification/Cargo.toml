[package]
name = "passtui"
version = "0.1.0"
edition = "2021"
publish = false

[dependencies]
anyhow = "1"
arboard = { version = "3", default-features = false }
crossterm = "0.28"
dirs = "6"
rand = "0.9"
ratatui = "0.29"
serde = { version = "1", features = ["derive"] }
toml = "0.8"
zeroize = "1"
zxcvbn = "3"
