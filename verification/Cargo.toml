[package]
name = "uic_tui"
version = "0.1.0"
edition = "2021"
publish = false

[dependencies]
unicode-width = "=0.2.0"
qrcode = { version = "=0.14.1", default-features = false }
ratatui = "=0.29.0"
crossterm = "=0.28.1"
thiserror = "=2.0.21"
chrono = { version = "0.4", default-features = false }
