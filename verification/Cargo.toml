[package]
name = "notevault"
version = "0.1.0"
edition = "2021"
publish = false

[dependencies]
aes = "0.7"
block-modes = "0.8"
sha2 = "0.10"
rand = "0.8"
chrono = "*"
figlet-rs = "*"
