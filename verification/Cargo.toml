[package]
name = "neexrs"
version = "0.1.0"
edition = "2021"
publish = false

[dependencies]
anyhow = "*"
clap = { version = "*", features = ["derive"] }
colored = "*"
crossterm = "*"
futures = "*"
indicatif = "*"
serde = { version = "*", features = ["derive"] }
tokio = { version = "*", features = ["io-util", "macros", "process", "rt-multi-thread", "signal", "sync", "time"] }
