[package]
name = "hostman"
version = "0.1.0"
edition = "2021"
publish = false

[dependencies]
clap = "2"
pnet = "*"
reqwest = { version = "0.12", default-features = false }
rocket = "0.5"
serde = { version = "1", features = ["derive"] }
serde_json = "1"
sled = "0.34"
sys-info = "0.9"
tokio = { version = "1", features = ["fs", "io-util", "macros", "rt-multi-thread"] }
