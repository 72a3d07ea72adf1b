[package]
name = "baml"
version = "0.1.0"
edition = "2021"
publish = false

[dependencies]
anyhow = "1"
either = "1"
indexmap = "2"
pyo3 = "*"
rayon = "1"
serde = { version = "1", features = ["derive"] }
