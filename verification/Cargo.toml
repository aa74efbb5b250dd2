[package]
name = "ui_guido"
version = "0.1.0"
edition = "2021"
publish = false

[dependencies]
ggez = { version = "=0.8.1", default-features = false }
