[package]
name = "fingering_chart"
version = "0.1.0"
edition = "2021"
publish = false

[dependencies]
image = "*"
midly = "*"
ron = "*"
serde = { version = "*", features = ["derive"] }
