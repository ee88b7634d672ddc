[package]
name = "pipelight"
version = "0.1.0"
edition = "2021"
publish = false

[dependencies]
chrono = "*"
clap = { version = "*", features = ["derive"] }
clap_complete = "*"
colored = "*"
log = "*"
miette = "*"
once_cell = "*"
rustix = { version = "*", features = ["process"] }
serde = { version = "*", features = ["derive"] }
serde_json = "*"
tokio = { version = "*", features = ["full"] }
uuid = { version = "*", features = ["v4"] }
watchexec = "*"
watchexec-signals = "*"
