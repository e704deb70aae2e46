[package]
name = "stabmouse"
version = "0.1.0"
edition = "2021"
publish = false

[dependencies]
anyhow = "1"
clap = { version = "4", features = ["derive"] }
evdev = "0.13"
inotify = { version = "0.11", default-features = false }
libc = "0.2"
serde = { version = "1", features = ["derive"] }
thiserror = "2"
toml = "0.8"
toml_edit = "0.22"
wayland-client = "0.31"
zbus = "5"
