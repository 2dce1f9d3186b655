[package]
name = "gazm"
version = "0.1.0"
edition = "2021"
publish = false

[dependencies]
colored = "2"
serde = { version = "1", features = ["derive"] }
toml = "0.8"
clap = { version = "4", features = ["cargo"] }
bincode = "1"
rmp-serde = "1"
anyhow = "1"
thiserror = "1"
