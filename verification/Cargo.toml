[package]
name = "mgt"
version = "0.1.0"
edition = "2021"
publish = false

[dependencies]
toml = "=0.8.23"
git-url-parse = "=0.4.6"
num_cpus = "=1.17.0"
gumdrop = "=0.8.1"
die = "=0.2.0"
