[package]
name = "melon"
version = "0.1.0"
edition = "2021"
publish = false

[dependencies]
hashbrown = { version = "=0.17.1", features = ["rayon"] }
rayon = "=1.12.0"
rtree_rs = "=0.1.4"
serde = { version = "=1.0.229", features = ["derive"] }
serde_json = "=1.0.154"
mimalloc = "=0.1.52"
