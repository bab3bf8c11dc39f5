[package]
name = "dcmfree"
version = "0.1.0"
edition = "2021"
publish = false

[dependencies]
anyhow = "1"
bytesize = "*"
chrono = "0.4"
clap = { version = "4", features = ["derive"] }
humantime = "2"
native-windows-derive = "1"
native-windows-gui = "1"
serde = { version = "1", features = ["derive"] }
serde_json = "1"
thiserror = "2"
tracing = "0.1"
tracing-subscriber = { version = "0.3", features = ["env-filter", "fmt"] }
walkdir = "2"
windows = { version = "*", features = ["Win32_Foundation", "Win32_Security", "Win32_System_Threading", "Win32_UI_Shell", "Win32_System_Console", "Win32_UI_WindowsAndMessaging"] }
