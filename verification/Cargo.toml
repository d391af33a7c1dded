[package]
name = "grid_games"
version = "0.1.0"
edition = "2021"
publish = false

[dependencies]
stdweb = "0.4"
