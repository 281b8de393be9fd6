[package]
name = "mem8_fs_lite"
version = "0.1.0"
edition = "2021"
publish = false

[dependencies]
anyhow = "1"
bincode = "1.3.3"
blake3 = { version = "1", default-features = false, features = ["pure"] }
byteorder = "1"
num-complex = "0.4"
serde = { version = "1", features = ["derive"] }
serde_json = "1"
