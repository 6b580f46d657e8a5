[package]
name = "chronos"
version = "0.1.0"
edition = "2021"
publish = false

[dependencies]
anyhow = "1"
directories = "*"
image = { version = "*", default-features = false, features = ["png"] }
notify-rust = "*"
rusqlite = { version = "*", features = ["bundled"] }
tracing = "*"
tracing-subscriber = { version = "*", features = ["env-filter"] }
tray-icon = "*"
zbus = "*"
