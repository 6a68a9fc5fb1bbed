[package]
name = "waveform"
version = "0.1.0"
edition = "2021"
publish = false

[dependencies]
byteorder = "*"
clap = { version = "*", features = ["derive"] }
num = "*"
sdl2 = "*"
core-graphics = "*"
