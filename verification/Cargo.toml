[package]
name = "expurgate"
version = "0.1.0"
edition = "2021"
publish = false

[dependencies]
eframe = { version = "*", default-features = false, features = ["default_fonts", "glow", "persistence"] }
egui = "*"
env_logger = "*"
serde = { version = "*", features = ["derive"] }
sysinfo = "*"
tray-item = "*"
windows = { version = "*", features = ["Win32_Foundation", "Win32_Graphics_Dwm", "Win32_UI_Input_KeyboardAndMouse", "Win32_UI_WindowsAndMessaging"] }
