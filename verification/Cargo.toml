[package]
name = "otpauth"
version = "0.1.0"
edition = "2021"

[dependencies]
hex = "*"
ring = "*"
percent-encoding = "*"
