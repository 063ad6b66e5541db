[package]
name = "pyxel_engine"
version = "0.1.0"
edition = "2021"
publish = false

[dependencies]
hound = "=3.5.1"
parking_lot = "=0.12.5"
pyxel-platform = "=2.3.18"
