[package]
name = "turm"
version = "0.1.0"
edition = "2021"
publish = false

[dependencies]
clap = { version = "4", features = ["derive"] }
clap_complete = "4"
crossbeam = "0.8"
crossterm = "0.29"
ratatui = "0.30"
regex = "1"
