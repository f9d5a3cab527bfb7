[package]
name = "limbo"
version = "0.1.0"
edition = "2021"
publish = false

[dependencies]
bytes = "=1.12.1"
flate2 = "=1.1.10"
serde_json = "=1.0.154"
uuid = "=1.29.0"
valence_nbt = { version = "=0.8.0", features = ["binary", "preserve_order"] }
