[package]
name = "vdf"
version = "0.1.0"
edition = "2021"
publish = false

[dependencies]
curv-kzen = "0.7"
sha3 = "0.10"
serde = { version = "1.0", features = ["derive"] }

[dev-dependencies]
hex = "0.4"
