[package]
name = "chaosring"
version = "0.1.0"
edition = "2021"
publish = false

[dependencies]
anyhow = "1"
image = "0.24"
serenity = "0.11"
tokio = { version = "1", features = ["macros", "rt-multi-thread"] }
