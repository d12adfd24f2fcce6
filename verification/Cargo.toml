[package]
name = "doom_front"
version = "0.1.0"
edition = "2021"
publish = false

[dependencies]
indexmap = "*"
parking_lot = "*"
serde = { version = "*", features = ["derive"] }
