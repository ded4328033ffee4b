[package]
name = "magma_core"
version = "0.1.0"
edition = "2021"
publish = false

[dependencies]
serde = { version = "*", features = ["derive"] }
ron = "*"
xdg = "*"
indexmap = { version = "*", features = ["serde"] }
