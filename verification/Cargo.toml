[package]
name = "enum_check"
version = "0.1.0"
edition = "2021"
publish = false

[dependencies]
sway-error = "=0.72.1"
sway-types = "=0.72.1"
