[package]
name = "sonora"
version = "0.1.0"
edition = "2021"
publish = false

[dependencies]
rustfft = "*"
cpal = "*"
eframe = { version = "*", default-features = false, features = ["default_fonts", "wgpu", "x11"] }
windows = { version = "*", features = ["Win32_Foundation", "Win32_Security", "Win32_Media_Audio", "Win32_Media_Audio_Endpoints", "Win32_System_Com", "Win32_System_Com_StructuredStorage", "Win32_System_Threading", "Win32_System_Variant"] }
