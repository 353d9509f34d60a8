[package]
name = "uefi_display"
version = "0.1.0"
edition = "2021"
publish = false

[dependencies]
uefi = { version = "=0.24.0", features = ["alloc"] }
uefi-services = { version = "=0.21.0", default-features = false, features = ["logger"] }
log = "=0.4.34"
arrayvec = { version = "=0.7.8", default-features = false }
