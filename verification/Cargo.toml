[package]
name = "monologued"
version = "0.1.0"
edition = "2021"
publish = false

[dependencies]
bytes = "0.4"
unicode-segmentation = "1"
mio = "0.6"
log = "0.4"
env_logger = { version = "0.4", default-features = false }
libc = "0.2"
