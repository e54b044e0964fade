[package]
name = "rapid_recorder"
version = "0.1.0"
edition = "2021"
publish = false

[dependencies]
atomic_float = "*"
crossbeam = "*"
strum = { version = "*", features = ["derive"] }

[dev-dependencies]
rayon = "*"
