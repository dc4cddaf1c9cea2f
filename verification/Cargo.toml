[package]
name = "solver"
version = "0.1.0"
edition = "2021"
publish = false

[dependencies]
pathfinding = "4"
anyhow = "1"
clap = { version = "4", features = ["derive"] }
rand = "0.8"
rand_pcg = "0.3"
rayon = "1"
serde = { version = "1", features = ["derive"] }
serde_json = "1"
