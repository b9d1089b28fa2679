[package]
name = "distributed_pipeline"
version = "0.1.0"
edition = "2021"
publish = false

[dependencies]
steady_state = { version = "=0.3.1", default-features = false }
clap = { version = "=4.6.7", features = ["derive"] }
