[package]
name = "h1_encoder"
version = "0.1.0"
edition = "2021"
publish = false

[dependencies]
async-std = "1"
http-types = "2"
log = "0.4"
