[package]
name = "xofbloom"
version = "0.1.0"
edition = "2021"
publish = false

[dependencies]
blake3 = "1"
bytemuck = "1"
getrandom = "0.3"
libm = "0.2"
memmap2 = "0.9"
page_size = "0.6"

[dev-dependencies]
tempfile = "3"
