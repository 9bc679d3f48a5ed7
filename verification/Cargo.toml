[package]
name = "uplink_metadata"
version = "0.1.0"
edition = "2021"
publish = false

[dependencies]
uplink-sys = "*"
