[package]
name = "uffs_mft"
version = "0.1.0"
edition = "2021"
publish = false

[dependencies]
bytemuck = "1"
crossbeam-channel = "0.5"
indicatif = "0.17"
rayon = "1"
serde = { version = "1", features = ["derive"] }
tokio = { version = "1", features = ["rt", "rt-multi-thread"] }
tracing = "0.1"
zstd = "0.13"

