[package]
name = "screen_pilot"
version = "0.1.0"
edition = "2021"
publish = false

[dependencies]
enigo = "=0.1.3"
image = { version = "=0.24.9", default-features = false, features = ["png"] }
spin_sleep = "=1.3.3"
