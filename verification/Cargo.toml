[package]
name = "bootcore"
version = "0.1.0"
edition = "2021"
publish = false

[dependencies]
x86_64 = { version = "=0.15.5", default-features = false, features = ["instructions"] }
elf = "=0.7.4"
uefi = { version = "=0.28.0", features = ["alloc"] }
uefi-services = { version = "=0.25.0", default-features = false, features = ["logger"] }
log = "=0.4.34"
limine = "=0.5.0"
