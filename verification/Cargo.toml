[package]
name = "camera_rig"
version = "0.1.0"
edition = "2021"
publish = false

[dependencies]
dolly = "=0.6.0"
glam = "=0.28.0"
