[package]
name = "clipdmenu"
version = "0.1.0"
edition = "2021"
publish = false

[dependencies]
x11rb = { version = "0.13", features = ["xfixes"] }
