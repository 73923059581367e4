[package]
name = "fontrun"
version = "0.1.0"
edition = "2021"
publish = false

[dependencies]
thiserror = "*"
x11 = { version = "*", features = ["xlib", "xft"] }
