[package]
name = "devtop"
version = "0.1.0"
edition = "2021"
publish = false

[dependencies]
anyhow = "1"
bollard = "0.18"
crossterm = "0.28"
futures-util = "0.3"
ratatui = "0.29"
sysinfo = "0.33"
tokio = { version = "1", features = ["full"] }
