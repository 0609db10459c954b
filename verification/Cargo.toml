[package]
name = "chip8"
version = "0.1.0"
edition = "2021"
publish = false

[dependencies]
anyhow = "1"
bitvec = "1"
clap = { version = "4", features = ["derive"] }
crossterm = "0.28"
ratatui = "0.29"
rand = "0.8"
rdev = "0.5"
rodio = "0.19"
