[package]
name = "shr_daw"
version = "0.1.0"
edition = "2021"
publish = false

[dependencies]
anyhow = "1"
libc = "0.2"
midir = "*"
serde = { version = "1", features = ["derive"] }
serde_json = "1"
signal-hook = "0.3"
