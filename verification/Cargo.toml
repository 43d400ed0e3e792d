[package]
name = "meterfuse"
version = "0.1.0"
edition = "2021"
publish = false

[dependencies]
anyhow = "*"
clap = { version = "*", features = ["derive"] }
futures = "*"
tokio = { version = "*", features = ["macros", "rt-multi-thread"] }
ut325f-rs = "*"
