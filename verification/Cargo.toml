[package]
name = "wops"
version = "0.1.0"
edition = "2021"
publish = false

[dependencies]
image = { version = "=0.25.10", default-features = false, features = ["jpeg", "png", "gif", "bmp", "webp"] }
thiserror = "=2.0.21"
crossbeam-channel = "=0.5.17"
serde = { version = "=1.0.229", features = ["derive"] }
serde_json = "=1.0.154"
directories = "=6.0.0"
anyhow = "=1.0.104"
tracing = "=0.1.44"
tracing-subscriber = { version = "=0.3.23", features = ["env-filter"] }
tracing-appender = "=0.2.5"
glam = "=0.34.2"
bytemuck = { version = "=1.25.2", features = ["derive"] }
futures-lite = "=2.6.1"
v4l = "=0.14.0"
ashpd = { version = "=0.13.13", features = ["screencast"] }
eframe = { version = "=0.37.0", default-features = false, features = ["wgpu", "wayland", "x11", "default_fonts"] }
