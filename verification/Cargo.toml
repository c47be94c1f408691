[package]
name = "tetka_games"
version = "0.1.0"
edition = "2021"
publish = false

[dependencies]
arrayvec = "0.7"
thiserror = "1"
statrs = "0.17"
