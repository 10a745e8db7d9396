[package]
name = "may_minihttp"
version = "0.1.0"
edition = "2021"
publish = false

[dependencies]
base64 = "0.22"
bytes = "1"
itoa = "1"
log = "0.4"
may = "0.3"
sha1 = "0.10"
