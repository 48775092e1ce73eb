[package]
name = "mal_reader"
version = "0.1.0"
edition = "2021"
publish = false

[dependencies]
env_logger = "0.10"
log = "0.4"
rustyline = "10"
