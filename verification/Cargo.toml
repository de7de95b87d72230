[package]
name = "dockman"
version = "0.1.0"
edition = "2021"
publish = false

[dependencies]
base64 = "=0.22.1"
serde_json = "=1.0.154"
wayland-client = "=0.31.15"
wayland-protocols-wlr = { version = "=0.3.12", features = ["client"] }
smithay-client-toolkit = { version = "=0.19.2", default-features = false, features = ["calloop"] }
image = { version = "=0.25.10", default-features = false, features = ["png", "jpeg"] }
resvg = "=0.49.0"
fontdue = "=0.9.5"
linicon = "=2.3.0"
walkdir = "=2.5.0"
sysinfo = "=0.40.1"
lazy_static = "=1.5.1"
