[package]
name = "nuonuo_layout"
version = "0.1.0"
edition = "2021"
publish = false

[dependencies]
slotmap = "1"
smithay = { version = "*", default-features = false, features = ["desktop", "wayland_frontend"] }
tracing = "0.1"
