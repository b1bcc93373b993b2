[package]
name = "postcss"
version = "0.1.0"
edition = "2021"
publish = false

[dependencies]
neon = "=1.1.2"

[dev-dependencies]
onig = { version = "=6.5.3", default-features = false }
