[package]
name = "picking_core"
version = "0.1.0"
edition = "2021"
publish = false

[dependencies]
bevy = { version = "=0.2.1", default-features = false, features = ["render"] }
notify = "=5.0.0-pre.2"
