[package]
name = "mynah"
version = "0.1.0"
edition = "2021"
publish = false

[dependencies]
anyhow = "1"
log = "0.4"
env_logger = "*"
calloop = "*"
calloop-wayland-source = "*"
cpal = "*"
evdev = "*"
ksni = { version = "*", features = ["blocking"] }
smithay-client-toolkit = "*"
tiny-skia = "*"
transcribe-cpp = "*"
wayland-client = "*"
