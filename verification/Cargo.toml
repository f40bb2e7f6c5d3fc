[package]
name = "gpui"
version = "0.1.0"
edition = "2021"
publish = false

[dependencies]
anyhow = "1"
etagere = "0.2"
log = "0.4"
parking_lot = "0.12"
pin-project = "1"
schemars = "1"
serde = { version = "1", features = ["derive"] }
smallvec = "1"
thiserror = "2"
cocoa = { version = "*", default-features = false }
core-video = { version = "*", default-features = false }
metal = { version = "*", default-features = false }
objc = { version = "*", default-features = false }
