[package]
name = "calc"
version = "0.1.0"
edition = "2021"
publish = false

[dependencies]
rug = "1"
ratatui = "0.26"
crossterm = "0.27"
