[package]
name = "starting"
version = "0.1.0"
edition = "2021"
publish = false

[dependencies]
uuid = "*"
object = { version = "*", default-features = false, features = ["read_core", "elf", "std"] }
serde = { version = "*", features = ["derive"] }
serde_json = "*"
uefi = "*"
block_device = "*"
fat32 = "*"
