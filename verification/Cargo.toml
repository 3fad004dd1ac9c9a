[package]
name = "meerkat_controller"
version = "0.1.0"
edition = "2021"
publish = false

[dependencies]
axum = { version = "=0.8.9", default-features = false }
percent-encoding = "=2.3.2"
quote = "=1.0.47"
