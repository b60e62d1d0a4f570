[package]
name = "svo_engine"
version = "0.1.0"
edition = "2021"
publish = false

[dependencies]
dashmap = "*"
dot_vox = "*"
tokio = { version = "*", features = ["rt-multi-thread"] }
