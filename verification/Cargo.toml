[package]
name = "devspace_sweeper"
version = "0.1.0"
edition = "2021"
publish = false

[dependencies]
anyhow = "1"
chrono = { version = "0.4", default-features = false, features = ["clock", "std"] }
clap = { version = "4", features = ["derive"] }
globset = "0.4"
humansize = "2"
ignore = "0.4"
serde = { version = "1", features = ["derive"] }
serde_yaml = "0.9"
walkdir = "2"
