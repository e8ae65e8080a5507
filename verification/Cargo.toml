[package]
name = "applications"
version = "0.1.0"
edition = "2021"
publish = false

[dependencies]
anyhow = "1"
freedesktop-file-parser = "*"
glob = "0.3"
lnk = "*"
nix = { version = "*", features = ["inotify", "event", "fs"] }
notify = "*"
parselnk = "*"
plist = "1"
serde = { version = "1", features = ["derive"] }
serde_derive = "1"
serde_json = "1"
tauri-icns = "*"
walkdir = "2"
winreg = "*"
