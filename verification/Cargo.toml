[package]
name = "taint_reuse"
version = "0.1.0"
edition = "2021"
publish = false

[dependencies]
rand = "0.8"
chrono = "0.4"
lazy_static = "1"
serde = { version = "1", features = ["derive"] }
serde_derive = "1"
