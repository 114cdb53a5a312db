[package]
name = "openhicos"
version = "0.1.0"
edition = "2021"
publish = false

[dependencies]
aes = "0.8"
cipher = "0.4"
cmac = "0.7"
des = "0.8"
getrandom = "0.3"
md-5 = "0.10"
sha1 = "0.10"
sha2 = "0.10"
num-bigint = "0.4"
pcsc = "2"
