[package]
name = "qrfs"
version = "0.1.0"
edition = "2021"
publish = false

[dependencies]
anyhow = "1"
fuser = { version = "0.14", default-features = false }
libc = "0.2"
thiserror = "1"
