[package]
name = "audio_visualizer"
version = "0.1.0"
edition = "2021"
publish = false

[dependencies]
anyhow = "1"
cpal = "*"
glam = "*"
