[package]
name = "daytrip"
version = "0.1.0"
edition = "2021"
publish = false

[dependencies]
regex = "=1.13.1"
librespot = { version = "=0.7.1", default-features = false, features = ["native-tls"] }
librespot-oauth = "=0.7.1"
tokio = { version = "=1.53.2", features = ["rt-multi-thread", "macros", "fs", "process", "time"] }
clap = { version = "=4.6.7", features = ["derive"] }
env_logger = "=0.11.11"
log = "=0.4.34"
anyhow = "=1.0.104"
vergen = { version = "=9.0.6", default-features = false }
