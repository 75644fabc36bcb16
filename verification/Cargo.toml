[package]
name = "matview"
version = "0.1.0"
edition = "2021"
publish = false

[dependencies]
anyhow = "1"
bytemuck = "1"
fs-err = "2"
memmap2 = "0.9"
mimalloc = { version = "0.1", default-features = false }
rand = "0.8"
serde = "1"
serde_json = { version = "1", features = ["raw_value"] }
