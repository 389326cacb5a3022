[package]
name = "crossref_core"
version = "0.1.0"
edition = "2021"
publish = false

[dependencies]
serde = { version = "*", features = ["derive"] }
usvg = "*"
image = { version = "*", default-features = false, features = ["png", "jpeg"] }
