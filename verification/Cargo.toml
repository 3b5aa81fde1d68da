[package]
name = "diffview"
version = "0.1.0"
edition = "2021"
publish = false

[dependencies]
anyhow = "=1.0.104"
atty = "=0.2.14"
clap = { version = "=4.6.7", features = ["derive"] }
crossterm = "0.29"
ratatui = "0.30"
unicode-width = "0.2"
