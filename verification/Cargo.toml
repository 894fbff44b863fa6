[package]
name = "babel"
version = "0.1.0"
edition = "2021"
publish = false

[dependencies]
log = "=0.4.35"
env_logger = "=0.11.11"
rkyv = "=0.8.18"
dashmap = "=6.2.1"
anyhow = "1"
