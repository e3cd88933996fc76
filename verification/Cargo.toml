[package]
name = "clkmonoff"
version = "0.1.0"
edition = "2021"
publish = false

[dependencies]
clap = { version = "=4.6.7", features = ["derive"] }
flate2 = "=1.1.10"
libc = "=0.2.191"
rfd = { version = "=0.17.2", default-features = false, features = ["xdg-portal"] }
sha2 = "0.10"
tar = "=0.4.46"
zbus = "=5.19.0"
windows = { version = "=0.61.3", features = ["Media_Control", "Foundation", "Win32_Foundation", "Win32_System_Com", "Win32_System_Power", "Win32_System_SystemServices", "Win32_System_LibraryLoader", "Win32_Graphics_Gdi", "Win32_Devices_Display", "Win32_Media_Audio", "Win32_Media_Audio_Endpoints", "Win32_UI_WindowsAndMessaging", "Win32_UI_Accessibility"] }
