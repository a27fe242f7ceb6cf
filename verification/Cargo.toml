[package]
name = "multicliprelay"
version = "0.1.0"
edition = "2021"
publish = false

[dependencies]
anyhow = "=1.0.104"
bincode = "=1.3.3"
clap = { version = "=4.6.7", features = ["derive"] }
dirs = "=5.0.1"
env_logger = "=0.11.11"
glib = "0.19"
gtk4 = "0.8"
image = { version = "=0.25.10", default-features = false, features = ["png", "jpeg", "webp", "gif"] }
infer = "=0.16.0"
ksni = "0.2"
libc = "=0.2.191"
log = "=0.4.35"
serde = { version = "=1.0.229", features = ["derive"] }
serde_json = "=1.0.154"
sha2 = "=0.10.9"
tar = "=0.4.46"
tokio = { version = "=1.54.1", features = ["full"] }
toml = "=0.8.23"
tray-icon = { version = "0.19", default-features = false }
url = "=2.5.8"
uuid = { version = "=1.29.0", features = ["v4"] }
walkdir = "=2.5.0"
which = "=6.0.3"
windows-sys = { version = "0.59", features = ["Win32_Foundation", "Win32_System_DataExchange", "Win32_System_Memory", "Win32_System_Ole", "Win32_UI_Shell"] }
winit = { version = "0.30", default-features = false, features = ["x11"] }
wl-clipboard-rs = "=0.9.5"
x11rb = { version = "=0.13.2", features = ["xfixes"] }
