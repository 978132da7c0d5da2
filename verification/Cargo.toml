[package]
name = "portico"
version = "0.1.0"
edition = "2021"
publish = false

[dependencies]
sysinfo = { version = "0.29", default-features = false }
clap = { version = "4", features = ["derive"] }
crossterm = "0.27"
ratatui = "0.26"
serde = { version = "1", features = ["derive"] }
serde_yaml = "0.9"
