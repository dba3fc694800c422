[package]
name = "ws_oled_driver"
version = "0.1.0"
edition = "2021"

[dependencies]
anyhow = "1"
rppal = "*"
