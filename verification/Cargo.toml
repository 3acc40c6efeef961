[package]
name = "illumos_usb"
version = "0.1.0"
edition = "2021"
publish = false

[dependencies]
anyhow = "1"
devinfo = "*"
log = "0.4"
rustix = { version = "0.38", features = ["fs"] }
