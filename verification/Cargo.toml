[package]
name = "swaybar_info"
version = "0.1.0"
edition = "2021"
publish = false

[dependencies]
regex = "*"
chrono = "*"
libc = "*"

[dev-dependencies]
serde_json = "*"
