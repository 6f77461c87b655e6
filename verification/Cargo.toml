[package]
name = "vcprompt"
version = "0.1.0"
edition = "2021"
publish = false

[dependencies]
anyhow = "1"
chrono = "0.4"
env_logger = "0.9"
getopts = "0.2"
log = "0.4"
structopt = "0.3"
