[package]
name = "hcorner"
version = "0.1.0"
edition = "2021"
publish = false

[dependencies]
dirs = "5"
x11 = { version = "2", features = ["xlib"] }
