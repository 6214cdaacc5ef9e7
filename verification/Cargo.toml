[package]
name = "budget_tracker"
version = "0.1.0"
edition = "2021"
publish = false

[dependencies]
uuid = { version = "1", features = ["v4"] }
chrono = "0.4"
home = "0.5"
anyhow = "1"
clap = { version = "4", features = ["derive"] }
