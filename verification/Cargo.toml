[package]
name = "launcher"
version = "0.1.0"
edition = "2021"
publish = false

[dependencies]
aes = "0.8"
anyhow = "1"
base64 = "0.22"
encoding_rs = "0.8"
flate2 = "1"
native-windows-derive = "1"
native-windows-gui = "1"
serde = { version = "1", features = ["derive"] }
serde_json = "1"
windows = { version = "0.59", features = ["Win32_Foundation", "Win32_Security", "Win32_System_Diagnostics_Debug", "Win32_System_Diagnostics_ToolHelp", "Win32_System_Memory", "Win32_System_Threading", "Win32_System_LibraryLoader", "Win32_System_Console", "Win32_System_Kernel", "Win32_Networking_WinInet", "Win32_UI_Shell", "Win32_UI_WindowsAndMessaging", "Win32_UI_Controls"] }
zip = { version = "2", default-features = false, features = ["deflate"] }
