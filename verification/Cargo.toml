[package]
name = "core_ezkl"
version = "0.1.0"
edition = "2021"
publish = false

[dependencies]
halo2_proofs = "*"
halo2curves = "*"
serde = { version = "*", features = ["derive"] }
serde_json = "*"
clap = { version = "*", features = ["derive"] }
