[package]
name = "draw_capture"
version = "0.1.0"
edition = "2021"
publish = false

[dependencies]
imgui = "*"
serde = { version = "1", features = ["derive"] }
