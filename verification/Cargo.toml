[package]
name = "termica"
version = "0.1.0"
edition = "2021"
publish = false

[dependencies]
alacritty_terminal = "=0.26.0"
directories = "=6.0.0"
eframe = { version = "=0.37.0", default-features = false, features = ["default_fonts", "glow", "x11"] }
egui_tiles = "=0.18.0"
fs4 = "=1.1.0"
image = { version = "=0.25.10", default-features = false, features = ["png"] }
muda = { version = "*", default-features = false }
rusqlite = { version = "=0.41.1", features = ["bundled"] }
serde = { version = "=1.0.229", features = ["derive"] }
serde_json = "=1.0.154"
tempfile = "=3.27.0"
thiserror = "=2.0.21"
uuid = { version = "=1.29.0", features = ["v4"] }
vte = "=0.15.0"
winit = { version = "=0.30.13", default-features = false, features = ["x11", "rwh_06"] }
zstd = "=0.14.3"
