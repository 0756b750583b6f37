[package]
name = "pddb"
version = "0.1.0"
edition = "2021"
publish = false

[dependencies]
aes = "0.8"
aes-gcm-siv = "0.11"
bitflags = "1"
getrandom = "0.2"
log = "0.4"
pbkdf2 = "0.12"
sha2 = "0.10"
