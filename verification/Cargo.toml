[package]
name = "smtp_server"
version = "0.1.0"
edition = "2021"
publish = false

[dependencies]
mailparse = "=0.18.0"
native-tls = "*"
