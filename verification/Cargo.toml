[package]
name = "vellum"
version = "0.1.0"
edition = "2021"
publish = false

[dependencies]
quill = "*"
gtk4 = "*"
libadwaita = "*"
