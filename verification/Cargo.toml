[package]
name = "txmerge"
version = "0.1.0"
edition = "2021"
publish = false

[dependencies]
similar = "2"
ratatui = "0.29"
crossterm = "0.28"
clap = { version = "4", features = ["derive"] }
unicode-width = "0.2"
