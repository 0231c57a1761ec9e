[package]
name = "agent_infer"
version = "0.1.0"
edition = "2021"
publish = false

[dependencies]
anyhow = "1"
half = "2"
hf-hub = { version = "0.4", default-features = false, features = ["ureq"] }
log = "0.4"
serde = { version = "1", features = ["derive"] }
serde_json = "1"
