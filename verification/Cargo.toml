[package]
name = "go-again"
version = "0.1.0"
edition = "2021"
publish = false

[dependencies]
clap = { version = "4", features = ["derive"] }
dirs = "5"
notify = "6"
serde = { version = "1", features = ["derive"] }
serde_json = "1"
skim = "0.10"
