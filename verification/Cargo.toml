[package]
name = "scene_assets"
version = "0.1.0"
edition = "2021"
publish = false

[dependencies]
cgmath = "=0.18.0"
fbx_direct = "=0.6.4"
gl = "=0.14.0"
glutin = "=0.19.0"
png = "=0.16.8"
time = "=0.1.45"

[dev-dependencies]
byteorder = "=1.5.0"
