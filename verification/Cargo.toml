[package]
name = "kvs"
version = "0.1.0"
edition = "2021"
publish = false

[dependencies]
clap = "2"
env_logger = "0.9"
log = "0.4"
rayon = "1"
serde_json = "1"
sled = "0.34"
