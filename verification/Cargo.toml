[package]
name = "hematite_wm"
version = "0.1.0"
edition = "2021"
publish = false

[dependencies]
x11rb = { version = "*", features = ["cursor", "resource_manager"] }
xkeysym = "*"
serde = { version = "*", features = ["derive"] }
toml = "*"
xdg = "*"
log = "*"
env_logger = "*"
