[package]
name = "pane"
version = "0.5.0"
edition = "2021"
publish = false

[dependencies]
eframe = { version = "=0.32.3", default-features = false, features = ["glow", "wgpu", "default_fonts", "x11"] }
egui_extras = { version = "=0.32.3", default-features = false }
image = { version = "=0.25.10", default-features = false, features = ["png"] }
nvml-wrapper = "=0.11.0"
sysinfo = "=0.35.2"
wgpu = { version = "=25.0.2", default-features = false, features = ["wgsl"] }
windows = { version = "=0.61.3", features = ["Win32_System_Performance", "Win32_UI_Shell", "Win32_Foundation"] }
