[package]
name = "apptrack"
version = "0.1.0"
edition = "2021"
publish = false

[dependencies]
base64 = "*"
crossbeam-channel = "*"
icns = "*"
plist = "*"
rusqlite = { version = "*", features = ["bundled"] }
sysinfo = "*"
