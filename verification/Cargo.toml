[package]
name = "fulgur_core"
version = "0.1.0"
edition = "2021"
publish = false

[dependencies]
anyhow = "=1.0.104"
log = "=0.4.35"
parking_lot = "=0.12.5"
raw-window-handle = "=0.6.2"
rust-embed = { version = "=8.13.0", features = ["include-exclude"] }
tikv-jemallocator = "=0.6.1"
urlencoding = "=2.1.3"
windows = { version = "0.58", features = ["Win32_Foundation", "Win32_UI_WindowsAndMessaging", "Win32_UI_Input_KeyboardAndMouse"] }

[dev-dependencies]
tempfile = "=3.27.0"
