[package]
name = "roxlap_game_demo"
version = "0.1.0"
edition = "2021"
publish = false

[dependencies]
glam = "*"
legion = "*"
rand = "*"
sdl2 = { version = "*", features = ["mixer", "gfx", "raw-window-handle"] }
raw-window-handle = "*"
bytemuck = "*"
egui = "*"
fontdue = "*"
roxlap-core = "*"
roxlap-formats = "*"
roxlap-gpu = "*"
roxlap-cavegen = "*"
