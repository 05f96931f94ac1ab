[package]
name = "fol_discord"
version = "0.2.7"
edition = "2021"
publish = false

[dependencies]
anyhow = "1"
libc = "0.2"
reqwest = { version = "0.12", default-features = false, features = ["json", "socks", "rustls-tls", "blocking"] }
serde = { version = "1", features = ["derive"] }
serde_json = "1"
tokio = { version = "1", features = ["rt-multi-thread", "macros", "net", "io-util", "time", "sync"] }
windows-sys = { version = "0.59", features = ["Win32_Foundation", "Win32_Security", "Win32_Storage_FileSystem", "Win32_System_Console", "Win32_System_Diagnostics_ToolHelp", "Win32_System_Threading"] }
winreg = "0.52"
