[package]
name = "shooter_core"
version = "0.1.0"
edition = "2021"
publish = false

[dependencies]
log = "*"
rand = "0.8"
serde = { version = "*", features = ["derive"] }
toml = "*"
