[package]
name = "gitlab_cargo_audit"
version = "0.1.0"
edition = "2021"
publish = false

[dependencies]
anyhow = "=1.0.104"
argh = "=0.1.19"
env_logger = "=0.11.11"
petgraph = "=0.8.3"
rustsec = { version = "=0.33.0", default-features = false, features = ["dependency-tree"] }
serde = { version = "=1.0.229", features = ["derive"] }
serde_json = "=1.0.151"
time = { version = "=0.3.55", features = ["formatting"] }
