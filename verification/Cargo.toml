[package]
name = "linkrelay"
version = "0.1.0"
edition = "2021"
publish = false

[dependencies]
dotenv = "0.15"
futures = "0.3"
reqwest = { version = "0.12", default-features = false }
serenity = "0.12"
tokio = { version = "1", features = ["macros", "rt-multi-thread"] }
