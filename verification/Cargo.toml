[package]
name = "cursmetic"
version = "0.1.0"
edition = "2021"
publish = false

[dependencies]
unicode-normalization = "=0.1.26"
icu_segmenter = "=2.4.0"
anyhow = "=1.0.104"
clap = { version = "=4.6.7", features = ["derive"] }
crossterm = "=0.29.0"
dialoguer = "=0.11.0"
thiserror = "=2.0.21"
windows-registry = "=0.5.3"
windows = { version = "=0.61.3", features = ["Win32_Foundation", "Win32_System_LibraryLoader", "Win32_System_SystemInformation", "Win32_UI_WindowsAndMessaging", "Win32_UI_Shell"] }
