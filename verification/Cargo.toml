[package]
name = "overlayfs"
version = "0.1.0"
edition = "2021"
publish = false

[dependencies]
log = "0.4"
rustix = { version = "1", features = ["mount", "fs"] }
