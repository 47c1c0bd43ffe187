[package]
name = "xp_macroquad"
version = "0.1.0"
edition = "2021"
publish = false

[dependencies]
macroquad = "0.4"
macroquad-particles = "0.2"
miniquad = "0.4"
color-eyre = "0.6"
ron = "0.8"
serde = { version = "1", features = ["derive"] }
