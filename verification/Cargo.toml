[package]
name = "wl_lock"
version = "0.1.0"
edition = "2021"
publish = false

[dependencies]
chrono = "*"
egui = "*"
egui-wgpu = "*"
libc = "*"
pollster = "*"
raw-window-handle = "0.6"
wayland-client = "*"
wayland-backend = { version = "*", features = ["client_system", "dlopen"] }
wayland-protocols = { version = "*", features = ["client", "staging"] }
wgpu = "*"
xkbcommon = "*"
