[package]
name = "apfs_fastindex"
version = "0.1.0"
edition = "2021"
publish = false

[dependencies]
serde = { version = "1", features = ["derive"] }
serde_json = "1"
rmp-serde = "1"
plist = "1"
libc = "0.2"
tempfile = "3"
