[package]
name = "clerk"
version = "0.1.0"
edition = "2021"
publish = false

[dependencies]
common-game = "*"
crossbeam-channel = "0.5"
log = "0.4"
env_logger = "0.11"
