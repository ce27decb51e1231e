[package]
name = "whackamux"
version = "0.1.0"
edition = "2021"
publish = false

[dependencies]
anyhow = "1"
dirs = "6"
eframe = { version = "=0.31.1", default-features = false, features = ["glow"] }
egui = { version = "=0.31.1", default-features = false, features = ["default_fonts"] }
env_logger = { version = "0.10", default-features = false }
futures = { version = "0.3", default-features = false, features = ["alloc"] }
# Not called: this turns on the X11 support of the OpenGL window behind eframe. The feature
# `x11` of eframe would do so too, but brings the unused wgpu backend into the dependencies.
glutin-winit = { version = "0.5", default-features = false, features = ["egl", "x11"] }
# Not called: eframe reads its icon with it. Held at this release to keep the dependencies few.
image = { version = "=0.25.2", default-features = false }
log = "0.4"
russh = { version = "=0.54.5", default-features = false, features = ["ring", "rsa"] }
serde = { version = "1", features = ["derive"] }
serde_yaml = "0.9"
tokio = { version = "1", features = ["rt-multi-thread", "sync", "time"] }
