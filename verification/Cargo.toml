[package]
name = "battle_royal"
version = "0.1.0"
edition = "2021"
publish = false

[dependencies]
vivalaakam_neuro_neat = "=0.1.20"
serde = { version = "1", features = ["derive"] }
serde_json = "1"
