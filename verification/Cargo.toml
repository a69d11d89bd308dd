[package]
name = "workload_gen"
version = "0.1.0"
edition = "2021"
publish = false

[dependencies]
anyhow = "1"
bloom = "*"
clap = { version = "4", features = ["derive"] }
rand = "0.9"
rand_xoshiro = "0.7"
schemars = { version = "1", features = ["derive"] }
serde = { version = "1", features = ["derive"] }
serde_json = "1"
walkdir = "2"
