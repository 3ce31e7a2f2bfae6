[package]
name = "space_drift"
version = "0.1.0"
edition = "2021"
publish = false

[dependencies]
rand = "0.8"
windows = { version = "0.44", features = ["Win32_Foundation", "Win32_Graphics_Gdi", "Win32_Media", "Win32_System_LibraryLoader", "Win32_UI_Input_KeyboardAndMouse", "Win32_UI_WindowsAndMessaging"] }
