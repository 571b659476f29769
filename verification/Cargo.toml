[package]
name = "regex_playground"
version = "0.1.0"
edition = "2021"
publish = false

[dependencies]
regex = "=1.13.1"
ratatui = "=0.28.1"
crossterm = "=0.28.1"
tui-textarea = "=0.6.1"
