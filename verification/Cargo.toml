[package]
name = "pck_keyscan"
version = "0.1.0"
edition = "2021"
publish = false

[dependencies]
aes = "0.8"
cfb-mode = "0.8"
md5 = "0.7"
hex = "0.4"
clap = { version = "4", features = ["derive"] }
