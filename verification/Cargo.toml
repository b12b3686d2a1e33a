[package]
name = "engine"
version = "0.1.0"
edition = "2021"
publish = false

[dependencies]
lru = "*"
smallvec = "*"
serde = { version = "*", features = ["derive"] }
serde_json = "*"
structopt = "*"
rayon = "*"
log = "*"
pretty_env_logger = "*"
