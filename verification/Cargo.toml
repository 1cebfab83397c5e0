[package]
name = "king"
version = "0.1.0"
edition = "2021"
publish = false

[dependencies]
argon2 = "*"
base64 = "*"
dryoc = "*"
log = "*"
simplelog = "*"
read_input = "*"
