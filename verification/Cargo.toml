[package]
name = "sblex-fjall-morphology-core"
version = "0.1.0"
edition = "2021"
publish = false

[dependencies]
fjall = "3"
fs-err = "3"
pyo3 = "*"
serde = { version = "1", features = ["derive"] }
serde_json = "1"

[dev-dependencies]
temp-dir = "*"
