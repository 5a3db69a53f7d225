[package]
name = "konfigura"
version = "0.1.0"
edition = "2021"
publish = false

[dependencies]
clap = "*"
env_logger = "*"
git2 = "*"
log = "*"
xdg = "*"
