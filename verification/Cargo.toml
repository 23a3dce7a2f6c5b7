[package]
name = "page_graph"
version = "0.1.0"
edition = "2021"
publish = false

[dependencies]
clap = { version = "*", features = ["derive"] }
crossbeam-channel = "*"
env_logger = "*"
indicatif = "*"
inquire = "*"
log = "*"
