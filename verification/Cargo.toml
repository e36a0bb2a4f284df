[package]
name = "candle_lang"
version = "0.5.0"
edition = "2021"
publish = false

[dependencies]
clap = { version = "4", features = ["derive"] }
