[package]
name = "twenty_first"
version = "0.1.0"
edition = "2021"
publish = false

[dependencies]
blake3 = { version = "1", default-features = false, features = ["pure"] }
itertools = "0.10"
rand = "0.8"
serde = { version = "1", features = ["derive"] }
