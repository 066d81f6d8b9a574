[package]
name = "ulti"
version = "0.1.0"
edition = "2021"
publish = false

[dependencies]
vt100 = "=0.18.1"
anyhow = "=1.0.104"
crossbeam-channel = "=0.5.17"
fontdb = "=0.16.2"
fontdue = "=0.9.5"
pixels = "=0.13.0"
portable-pty = "=0.8.1"
winit = "=0.28.7"
