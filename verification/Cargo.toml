[package]
name = "tower_defense"
version = "0.1.0"
edition = "2021"
publish = false

[dependencies]
anyhow = "1"
clap = "2"
env_logger = "0.9"
hecs = "0.7"
log = "0.4"
macroquad = { version = "0.3", default-features = false }
rand = "0.8"
