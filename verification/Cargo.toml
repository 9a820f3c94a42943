[package]
name = "userdirs"
version = "0.1.0"
edition = "2021"
publish = false

[dependencies]
windows-sys = { version = "0.59", features = ["Win32_UI_Shell", "Win32_System_Com"] }
