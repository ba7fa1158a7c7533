[package]
name = "cosmic_wanderer"
version = "0.1.0"
edition = "2021"
publish = false

[dependencies]
dirs = "*"
env_logger = "*"
freedesktop-desktop-entry = "*"
freedesktop-icons = "*"
fuzzy-matcher = "*"
libc = "*"
log = "*"
notify = "*"
notify-rust = "*"
serde = { version = "*", features = ["derive"] }
shlex = "*"
toml = "*"
