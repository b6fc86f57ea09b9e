[package]
name = "pixel_physician"
version = "0.1.0"
edition = "2021"
publish = false

[dependencies]
image = "=0.24.9"
clap = { version = "=4.6.7", features = ["derive"] }
humantime = "=2.4.0"
cgmath = "=0.18.0"
thiserror = "=1.0.69"
rayon = "=1.12.0"
three-d = "=0.15.0"
three-d-asset = "=0.5.0"
winit = "=0.28.7"
x11rb = { version = "=0.12.0", features = ["image"] }
x11rb-protocol = "=0.12.0"
