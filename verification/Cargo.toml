[package]
name = "proxmox_backup"
version = "0.1.0"
edition = "2021"
publish = false

[dependencies]
openssl = "0.10"
zstd = "0.13"
crc32c = "0.6"
regex = "1"
url = "2"
chrono = "0.4"
libc = "0.2"
