[package]
name = "lsport"
version = "0.1.0"
edition = "2021"
publish = false

[dependencies]
anyhow = "*"
clap = { version = "*", features = ["derive"] }
crossterm = "*"
dirs-next = "*"
listeners = "*"
ratatui = "*"
regex = "*"
ssh2 = "*"
sysinfo = "*"
