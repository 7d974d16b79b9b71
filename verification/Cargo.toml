[package]
name = "key_forge"
version = "0.1.0"
edition = "2021"
publish = false

[dependencies]
rustc_apfloat = "*"
base64 = "*"
rand = "0.8"
colored = "*"
rustyline = "*"
clear_screen = "*"
