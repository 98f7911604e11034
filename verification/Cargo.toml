[package]
name = "splendimax"
version = "0.1.0"
edition = "2021"
publish = false

[dependencies]
rand = "0.5"
csv = "1"
serde = { version = "1", features = ["derive"] }
