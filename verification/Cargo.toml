[package]
name = "waystream"
version = "0.1.0"
edition = "2021"
publish = false

[dependencies]
anyhow = "*"
clap = "*"
derive_more = "*"
env_logger = "*"
gstreamer = "*"
gstreamer-app = "*"
gstreamer-video = "*"
libwayshot = "*"
log = "*"
wayland-client = "*"
