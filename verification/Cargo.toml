[package]
name = "stir_ldt"
version = "0.1.0"
edition = "2021"
publish = false

[dependencies]
blake3 = "*"
ark-serialize = { version = "*", features = ["derive"] }
