[package]
name = "fauxput"
version = "0.5.0"
edition = "2021"
publish = false

[dependencies]
redid = "*"
serde = { version = "1", features = ["derive"] }
serde_json = "1"
tempfile = "3"
log = "0.4"
env_logger = "*"
clap = { version = "4", features = ["derive"] }
clap-verbosity-flag = "*"
dialoguer = "*"
anyhow = "1"
thiserror = "*"
wayland-client = "*"
wayland-protocols-plasma = { version = "*", features = ["client"] }
rustix = { version = "1", features = ["event"] }
indexmap = "2"
libc = "0.2"
zbus = "*"
