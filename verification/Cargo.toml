[package]
name = "darwinplay_runtime"
version = "0.9.0"
edition = "2021"
publish = false

[dependencies]
serde = { version = "1", features = ["derive"] }
serde_json = "1"
thiserror = "2"
zstd = "0.13"
clap = { version = "4", features = ["derive"] }
