[package]
name = "m3u8"
version = "0.1.0"
edition = "2021"
publish = false

[dependencies]
clap = { version = "*", features = ["derive"] }
reqwest = { version = "*", default-features = false }
thiserror = "*"
tokio = { version = "*", features = ["rt-multi-thread", "macros", "fs", "sync"] }
