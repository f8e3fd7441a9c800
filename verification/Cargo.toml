[package]
name = "brush_core"
version = "0.1.0"
edition = "2021"
publish = false

[dependencies]
brush-parser = "*"
clap = { version = "4", features = ["derive"] }
color-print = "*"
chrono = "*"
