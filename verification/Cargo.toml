[package]
name = "disk_image"
version = "0.1.0"
edition = "2021"
publish = false

[dependencies]
crc32fast = "*"

[dev-dependencies]
fatfs = "*"
gpt = "*"
