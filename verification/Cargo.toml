[package]
name = "arcglyph"
version = "0.1.0"
edition = "2021"
publish = false

[dependencies]
evdev = "0.12"
anyhow = "1"
serde = { version = "1", features = ["derive"] }
serde_yaml = "0.9"
serde_json = "1"
nix = { version = "0.29", features = ["poll", "inotify", "fs"] }
dbus = "0.9"
tempfile = "3"
tokio = { version = "1", features = ["rt-multi-thread", "time", "sync"] }
ksni = "0.3"
tiny-skia = "0.11"
smithay-client-toolkit = "0.19"
iced = { version = "0.13", default-features = false, features = ["tiny-skia", "tokio"] }
