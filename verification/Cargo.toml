[package]
name = "tacklecast"
version = "0.1.0"
edition = "2021"
publish = false

[dependencies]
bytemuck = { version = "1", features = ["derive"] }
crossbeam-channel = "0.5"
egui = { version = "0.31", default-features = false, features = ["default_fonts"] }
egui-wgpu = { version = "0.31", default-features = false }
egui-winit = { version = "0.31", default-features = false, features = ["x11"] }
ffmpeg-next = "8"
image = { version = "0.25", default-features = false, features = ["ico"] }
libloading = "0.8"
pollster = "0.4"
serde = { version = "1", features = ["derive"] }
serde_json = "1"
tracing = "0.1"
tracing-subscriber = { version = "0.3", default-features = false, features = ["fmt"] }
wgpu = { version = "=24.0.5", default-features = false, features = ["dx12", "wgsl"] }
windows = { version = "0.58", features = ["Win32_Foundation", "Win32_Graphics_Direct3D12", "Win32_Graphics_Dxgi_Common", "Win32_Security", "Win32_System_Threading", "Win32_UI_Shell"] }
winit = { version = "0.30", default-features = false, features = ["rwh_06", "x11"] }
