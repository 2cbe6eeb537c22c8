[package]
name = "rust_tetris_core"
version = "0.1.0"
edition = "2021"
publish = false

[dependencies]
rand = "=0.8.8"
macroquad = { version = "=0.4.16", features = ["audio"] }
nanoserde = "=0.2.1"
quad-storage = "=0.1.3"
