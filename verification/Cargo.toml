[package]
name = "psa_ret"
version = "0.1.0"
edition = "2021"
publish = false

[dependencies]
yaml-rust2 = "=0.10.4"
ratatui = "=0.29.0"
log = "=0.4.35"
env_logger = "=0.11.11"
