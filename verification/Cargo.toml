[package]
name = "filesize_utility"
version = "0.1.0"
edition = "2021"
publish = false

[dependencies]
byte-unit = { version = "=4.0.19", default-features = false }
crossterm = "=0.29.0"
enable-ansi-support = "=0.3.1"
fs_extra = "=1.3.0"
