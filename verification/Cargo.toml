[package]
name = "mrx"
version = "0.1.0"
edition = "2021"
publish = false

[dependencies]
clap = { version = "4", features = ["derive"] }
configparser = "3"
crossterm = "0.28"
dirs = "5"
num_cpus = "1"
ratatui = "0.29"
tokio = { version = "1", features = ["rt-multi-thread", "macros", "process", "sync", "fs"] }
