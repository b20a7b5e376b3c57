[package]
name = "game_of_life"
version = "0.3.0"
edition = "2021"
publish = false

[dependencies]
rand = "*"
clap = "*"
terminal_size = "*"
