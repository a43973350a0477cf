[package]
name = "garden"
version = "0.1.0"
edition = "2021"
publish = false

[dependencies]
askama = "0.12"
console = "0.15"
log = "0.4"
pathfinding = "4"
petgraph = "0.6"
pretty_env_logger = "0.4"
rand = "0.8"
rand_core = "0.6"
rand_pcg = "0.3"
serde = { version = "1", features = ["derive"] }
serde_json = "1"
tungstenite = "0.19"
