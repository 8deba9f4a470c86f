[package]
name = "viravis"
version = "0.1.0"
edition = "2021"
publish = false

[dependencies]
clap = { version = "*", features = ["derive"] }
cpal = "*"
ctrlc = "*"
json = "*"
realfft = "*"
rustfft = "*"
serialport = { version = "*", default-features = false }
tracing = "*"
tracing-subscriber = "*"
