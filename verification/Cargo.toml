[package]
name = "spaceview"
version = "0.1.0"
edition = "2021"
publish = false

[dependencies]
eframe = { version = "=0.31.1", default-features = false, features = ["glow", "x11", "default_fonts"] }
image = { version = "=0.25.10", default-features = false, features = ["png"] }
rfd = "0.15"
ureq = "=2.12.1"
