[package]
name = "sys_probe"
version = "0.1.0"
edition = "2021"
publish = false

[dependencies]
sysinfo = "0.33"
ratatui = "0.29"
crossterm = "0.28"
