[package]
name = "fits_viewer"
version = "0.1.0"
edition = "2021"
publish = false

[dependencies]
anyhow = "1"
bytemuck = { version = "1", features = ["derive"] }
byteorder = "1"
clap = { version = "4", features = ["derive"] }
eframe = { version = "*", default-features = false, features = ["wgpu", "default_fonts", "x11"] }
egui = "*"
egui_extras = "*"
egui-wgpu = "*"
env_logger = "*"
indexmap = "2"
log = "0.4"
memmap2 = "*"
pollster = "*"
thiserror = "*"
