[package]
name = "food_ordering_bot"
version = "0.1.0"
edition = "2021"
publish = false

[dependencies]
futures = "0.1"
telegram-bot = "0.6"
tokio-core = "0.1"
