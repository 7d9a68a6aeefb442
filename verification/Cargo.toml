[package]
name = "libpixels"
version = "0.1.0"
edition = "2021"
publish = false

[dependencies]
array-box = "*"
env_logger = "*"
euclid = "*"
imgref = "*"
log = "*"
pixels = "*"
raw-window-handle = "*"
value-box = "*"
