[package]
name = "trance"
version = "0.1.0"
edition = "2021"
publish = false

[dependencies]
wgpu-types = "*"
libc = "0.2"
wayland-client = "0.31"
wayland-protocols = { version = "0.32", features = ["client", "staging"] }
zbus = "5"
