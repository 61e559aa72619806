[package]
name = "dlt_user"
version = "0.1.0"
edition = "2021"
publish = false

[dependencies]
chrono = "0.4"
clap = { version = "4", features = ["derive"] }
crossbeam = "0.8"
nix = { version = "0.29", features = ["socket"] }
once_cell = "1"
sysinfo = "0.30"
