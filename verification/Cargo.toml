[package]
name = "quantum_solver"
version = "0.1.0"
edition = "2021"
publish = false

[dependencies]
lru = "*"
bitvec = "*"
serde = { version = "*", features = ["derive"] }
serde_json = "*"
