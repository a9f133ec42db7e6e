[package]
name = "tfhe"
version = "0.1.0"
edition = "2021"
publish = false

[dependencies]
bincode = "1.3.3"
rayon = "1"
serde = { version = "1", features = ["derive"] }
