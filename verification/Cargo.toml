[package]
name = "process_monitor"
version = "0.1.0"
edition = "2021"
publish = false

[dependencies]
chrono = "0.4"
crossterm = "0.29"
env_logger = "0.11"
log = "0.4"
ratatui = "0.30"
serde = { version = "1", features = ["derive"] }
sysinfo = "0.30"
wgpu = "23"
wmi = "0.13"
