[package]
name = "tik"
version = "0.1.0"
edition = "2021"
publish = false

[dependencies]
chrono = { version = "=0.4.45", features = ["serde"] }
clap = { version = "=4.6.7", features = ["derive"] }
crossterm = "=0.29.0"
dirs = "=7.0.0"
notify-rust = "=4.18.1"
serde = { version = "=1.0.229", features = ["derive"] }
serde_json = "=1.0.151"
tokio = { version = "=1.53.2", features = ["macros", "rt-multi-thread", "sync", "time"] }
toml = "=1.1.6"
