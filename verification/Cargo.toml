[package]
name = "stark_backend"
version = "0.1.0"
edition = "2021"
publish = false

[dependencies]
p3-baby-bear = "=0.8.0"
p3-challenger = "=0.8.0"
p3-commit = "=0.8.0"
p3-field = "=0.8.0"
p3-matrix = "=0.8.0"
p3-util = "=0.8.0"
rand = "=0.10.3"
rayon = "=1.12.0"
rustc-hash = "=2.1.3"
serde = { version = "=1.0.229", features = ["derive"] }
serde_json = "=1.0.154"

[dev-dependencies]
p3-dft = "=0.8.0"
