[package]
name = "wallpaper_poc"
version = "0.1.0"
edition = "2021"
publish = false

[dependencies]
crossbeam-channel = "0.5"
dirs = "5"
ffmpeg-next = "7"
futures-lite = "2"
image = { version = "0.25", default-features = false, features = ["jpeg", "png", "webp"] }
raw-window-handle = "0.6"
rfd = "0.15"
serde = { version = "1", features = ["derive"] }
serde_json = "1"
tray-icon = "0.19"
winit = { version = "0.30", default-features = false, features = ["rwh_06", "x11"] }
