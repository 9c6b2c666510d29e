[package]
name = "litephoton"
version = "0.1.0"
edition = "2021"
publish = false

[dependencies]
memchr = "2"
regex = "1"
memmap2 = "0.9"
clap = { version = "4", features = ["derive"] }
env_logger = "0.11"
log = "0.4"
thiserror = "2"
rayon = "1"
