[package]
name = "bevy_zhuose_qi"
version = "0.1.0"
edition = "2021"
publish = false

[dependencies]
ahash = "=0.7.8"
bevy = { version = "=0.5.0", default-features = false, features = ["render"] }
bevy_core = "=0.5.0"
bevy_utils = "=0.5.0"
tracing = "=0.1.26"
tracing-attributes = "=0.1.15"
